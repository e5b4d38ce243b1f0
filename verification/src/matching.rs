//! How the database compares texts: patterns, and an order that takes no notice of
//! the case of the letters A to Z.
use crate::text::{at_most, without_end_slashes};
use vstd::prelude::*;

verus! {

/// A character as a number, with the letters A to Z taken as a to z.
pub open spec fn folded(c: char) -> int {
    if 'A' <= c <= 'Z' {
        c as int + 32
    } else {
        c as int
    }
}

/// Whether a text does not come after another one, whatever their case.
pub open spec fn nocase_at_most(a: Seq<char>, b: Seq<char>) -> bool
    decreases a.len(),
{
    if a.len() == 0 {
        true
    } else if b.len() == 0 {
        false
    } else {
        ||| folded(a[0]) < folded(b[0])
        ||| folded(a[0]) == folded(b[0]) && nocase_at_most(a.drop_first(), b.drop_first())
    }
}

/// Whether a text matches a pattern, whatever their case: `%` stands for any
/// characters, `_` for one character.
pub open spec fn like(pattern: Seq<char>, text: Seq<char>) -> bool
    decreases pattern.len() + text.len(),
{
    if pattern.len() == 0 {
        text.len() == 0
    } else if pattern[0] == '%' {
        ||| like(pattern.drop_first(), text)
        ||| text.len() > 0 && like(pattern, text.drop_first())
    } else {
        &&& text.len() > 0
        &&& pattern[0] == '_' || folded(pattern[0]) == folded(text[0])
        &&& like(pattern.drop_first(), text.drop_first())
    }
}

/// Whether a text holds a word.
pub open spec fn holds_word(text: Seq<char>, word: Seq<char>) -> bool {
    like("%"@ + word + "%"@, text)
}

/// Whether a folder is a root or lies below it.
pub open spec fn below_root(root: Seq<char>, dir: Seq<char>) -> bool {
    dir == root || like(without_end_slashes(root) + "/%"@, dir)
}

/// Whether a folder is one of the roots or lies below one of them.
pub open spec fn below_roots(roots: Seq<Seq<char>>, dir: Seq<char>) -> bool {
    exists|i: int| 0 <= i < roots.len() && below_root(#[trigger] roots[i], dir)
}

/// Whether a text holds no character that stands for others in a pattern.
pub open spec fn is_plain(s: Seq<char>) -> bool {
    forall|i: int| 0 <= i < s.len() ==> (#[trigger] s[i]) != '%' && s[i] != '_'
}

/// Whether two texts are the same, whatever their case.
pub open spec fn nocase_same(a: Seq<char>, b: Seq<char>) -> bool {
    a.len() == b.len() && forall|i: int|
        0 <= i < a.len() ==> folded(#[trigger] a[i]) == folded(b[i])
}

/// Whether a text stands in another one from a place on, whatever its case.
pub open spec fn stands_in(word: Seq<char>, text: Seq<char>, at: int) -> bool {
    0 <= at && at + word.len() <= text.len() && nocase_same(
        word,
        text.subrange(at, at + word.len()),
    )
}

proof fn any_text_matches(text: Seq<char>)
    ensures
        like(seq!['%'], text),
    decreases text.len(),
{
    if text.len() > 0 {
        any_text_matches(text.drop_first());
    } else {
        assert(seq!['%'].drop_first() =~= Seq::<char>::empty());
        assert(like(seq!['%'].drop_first(), text));
    }
}

proof fn pattern_of_a_beginning(word: Seq<char>, text: Seq<char>)
    requires
        is_plain(word),
    ensures
        like(word + seq!['%'], text) == stands_in(word, text, 0),
    decreases word.len(),
{
    let pattern = word + seq!['%'];
    if word.len() == 0 {
        assert(pattern =~= seq!['%']);
        any_text_matches(text);
        assert(text.subrange(0, 0) =~= word);
    } else {
        assert(pattern[0] == word[0]);
        assert(pattern.drop_first() =~= word.drop_first() + seq!['%']);
        if text.len() > 0 {
            let rest = word.drop_first();
            let more = text.drop_first();
            assert forall|i: int| 0 <= i < rest.len() implies (#[trigger] rest[i]) != '%'
                && rest[i] != '_' by {
                assert(rest[i] == word[i + 1]);
            }
            pattern_of_a_beginning(rest, more);
            if word.len() <= text.len() {
                let part = text.subrange(0, word.len() as int);
                let less = more.subrange(0, rest.len() as int);
                assert(less =~= part.drop_first());
                if nocase_same(word, part) {
                    assert forall|i: int| 0 <= i < rest.len() implies folded(#[trigger] rest[i])
                        == folded(less[i]) by {
                        assert(rest[i] == word[i + 1]);
                    }
                    assert(folded(word[0]) == folded(part[0]));
                }
                if folded(word[0]) == folded(text[0]) && nocase_same(rest, less) {
                    assert forall|i: int| 0 <= i < word.len() implies folded(#[trigger] word[i])
                        == folded(part[i]) by {
                        if i > 0 {
                            assert(rest[i - 1] == word[i]);
                            assert(less[i - 1] == part[i]);
                        }
                    }
                }
            }
        }
    }
}

proof fn pattern_of_a_part(word: Seq<char>, text: Seq<char>)
    requires
        is_plain(word),
    ensures
        like(seq!['%'] + word + seq!['%'], text) == exists|at: int| #[trigger]
            stands_in(word, text, at),
    decreases text.len(),
{
    let pattern = seq!['%'] + word + seq!['%'];
    assert(pattern.drop_first() =~= word + seq!['%']);
    assert(pattern[0] == '%');
    pattern_of_a_beginning(word, text);
    if text.len() > 0 {
        let more = text.drop_first();
        pattern_of_a_part(word, more);
        if exists|at: int| #[trigger] stands_in(word, more, at) {
            let at = choose|at: int| #[trigger] stands_in(word, more, at);
            assert(more.subrange(at, at + word.len()) =~= text.subrange(
                at + 1,
                at + 1 + word.len(),
            ));
            assert(stands_in(word, text, at + 1));
        }
        if exists|at: int| #[trigger] stands_in(word, text, at) {
            let at = choose|at: int| #[trigger] stands_in(word, text, at);
            if at > 0 {
                assert(more.subrange(at - 1, at - 1 + word.len()) =~= text.subrange(
                    at,
                    at + word.len(),
                ));
                assert(stands_in(word, more, at - 1));
            }
        }
    }
}

/// A text holds a word without wildcards where the word occurs somewhere in it, whatever
/// its case.
pub proof fn words_occur_somewhere(text: Seq<char>, word: Seq<char>)
    requires
        is_plain(word),
    ensures
        holds_word(text, word) <==> exists|at: int| #[trigger] stands_in(word, text, at),
{
    reveal_strlit("%");
    assert("%"@ =~= seq!['%']);
    pattern_of_a_part(word, text);
}

/// A folder lies below a root without wildcards where it is the root, or begins with the
/// root and a slash, whatever its case. Slashes at the end of the root do not count
/// there.
pub proof fn roots_begin_what_lies_below(root: Seq<char>, dir: Seq<char>)
    requires
        is_plain(root),
    ensures
        below_root(root, dir) <==> dir == root || stands_in(
            without_end_slashes(root) + seq!['/'],
            dir,
            0,
        ),
{
    reveal_strlit("/%");
    let start = without_end_slashes(root) + seq!['/'];
    assert("/%"@ =~= seq!['/', '%']);
    assert(without_end_slashes(root) + "/%"@ =~= start + seq!['%']);
    end_slashes_are_at_the_end(root);
    assert forall|i: int| 0 <= i < start.len() implies (#[trigger] start[i]) != '%' && start[i]
        != '_' by {
        if i < start.len() - 1 {
            assert(start[i] == root[i]);
        }
    }
    pattern_of_a_beginning(start, dir);
}

proof fn end_slashes_are_at_the_end(s: Seq<char>)
    ensures
        without_end_slashes(s).is_prefix_of(s),
    decreases s.len(),
{
    if s.len() > 0 && s.last() == '/' {
        end_slashes_are_at_the_end(s.drop_last());
        assert(without_end_slashes(s).is_prefix_of(s.drop_last()));
    }
}

/// Whether an item with a name and a path does not come after another one: by name,
/// whatever its case, and by path where the names are alike.
pub open spec fn named_before(
    name: Seq<char>,
    path: Seq<char>,
    other_name: Seq<char>,
    other_path: Seq<char>,
) -> bool {
    &&& nocase_at_most(name, other_name)
    &&& nocase_at_most(other_name, name) ==> at_most(path, other_path)
}

} // verus!
