//! What the helpers for texts and names promise.
use crate::formats::{audio_extension, dotted, AUDIO_EXTENSIONS};
use crate::paths::{
    extension, file_name, has_extension, inside, last_dot, or_empty, path_extension, path_stem,
    shown_path, stem,
};
use crate::text::{
    all_digits, at_most, digit, digits, digits_value, filled, has_part, is_digit, joined,
    lower_char, lower_chars, replaced, signed_digits, small_number, stands_at, trimmed, trimmed_end,
    trimmed_start, white_space, without_end_slashes, words,
};

use vstd::prelude::*;

verus! {

/// Parts that are joined stand one behind the other, with the separator between two of them
/// and nowhere else.
pub proof fn joining_puts_between(parts: Seq<Seq<char>>, more: Seq<char>, sep: Seq<char>)
    ensures
        joined(Seq::empty(), sep) == Seq::<char>::empty(),
        joined(seq![more], sep) == more,
        parts.len() > 0 ==> joined(parts.push(more), sep) == joined(parts, sep) + sep + more,
{
    assert(parts.push(more).drop_last() =~= parts);
}

/// The digit of a number stands for it.
pub proof fn digits_stand_for_themselves(d: nat)
    requires
        d < 10,
    ensures
        digit(d) as int == '0' as int + d,
        is_digit(digit(d)),
{
}

/// The value of digits: each digit counts ten times as much as the one behind it.
pub proof fn digits_count_by_ten(s: Seq<char>, d: nat)
    requires
        d < 10,
    ensures
        digits_value(Seq::empty()) == 0,
        digits_value(s.push(digit(d))) == 10 * digits_value(s) + d,
{
    digits_stand_for_themselves(d);
    assert(s.push(digit(d)).drop_last() =~= s);
}

/// A number in decimal digits reads as that number, and has no zeros in front.
pub proof fn numbers_read_as_written(n: nat)
    ensures
        digits_value(digits(n)) == n,
        all_digits(digits(n)),
        digits(n).len() > 0,
        n > 0 ==> digits(n)[0] != '0',
        n < 10 ==> digits(n).len() == 1,
        10 <= n < 100 ==> digits(n).len() == 2,
        100 <= n < 1000 ==> digits(n).len() == 3,
    decreases n,
{
    if n < 10 {
        digits_count_by_ten(Seq::empty(), n);
        assert(digits(n) =~= Seq::<char>::empty().push(digit(n)));
    } else {
        numbers_read_as_written(n / 10);
        digits_count_by_ten(digits(n / 10), n % 10);
        digits_stand_for_themselves(n % 10);
        assert(digits(n)[0] == digits(n / 10)[0]);
        assert forall|i: int| 0 <= i < digits(n).len() implies is_digit(#[trigger] digits(n)[i]) by {
            if i < digits(n / 10).len() {
                assert(digits(n)[i] == digits(n / 10)[i]);
            }
        }
    }
}

/// Different numbers are written differently.
pub proof fn numbers_differ_in_digits(a: nat, b: nat)
    requires
        digits(a) == digits(b),
    ensures
        a == b,
{
    numbers_read_as_written(a);
    numbers_read_as_written(b);
}

/// A number with a sign that is written reads as that number.
pub proof fn signed_numbers_read_as_written(n: int)
    requires
        i32::MIN <= n <= i32::MAX,
    ensures
        small_number(signed_digits(n)) == Some(n),
        n < 0 ==> signed_digits(n)[0] == '-',
{
    let m: nat = if n < 0 {
        (-n) as nat
    } else {
        n as nat
    };
    numbers_read_as_written(m);
    if n < 0 {
        assert(signed_digits(n).drop_first() =~= digits(m));
    } else {
        assert(is_digit(digits(m)[0]));
    }
}

/// A text holds a part where it is the part with something in front and something behind.
pub proof fn parts_stand_between(s: Seq<char>, part: Seq<char>)
    ensures
        has_part(s, part) <==> exists|a: Seq<char>, b: Seq<char>| s == #[trigger] (a + part + b),
{
    if has_part(s, part) {
        let i = choose|i: int| #[trigger] stands_at(s, part, i);
        let a = s.take(i);
        let b = s.skip(i + part.len());
        assert(s =~= a + part + b);
    }
    if exists|a: Seq<char>, b: Seq<char>| s == #[trigger] (a + part + b) {
        let (a, b) = choose|a: Seq<char>, b: Seq<char>| s == #[trigger] (a + part + b);
        assert(s.subrange(a.len() as int, a.len() as int + part.len()) =~= part);
        assert(stands_at(s, part, a.len() as int));
    }
}

/// Slashes at the end are cut off, all of them and nothing else.
pub proof fn only_end_slashes_are_cut(s: Seq<char>)
    ensures
        without_end_slashes(s).len() <= s.len(),
        s.take(without_end_slashes(s).len() as int) == without_end_slashes(s),
        forall|i: int| without_end_slashes(s).len() <= i < s.len() ==> #[trigger] s[i] == '/',
        without_end_slashes(s).len() > 0 ==> without_end_slashes(s).last() != '/',
    decreases s.len(),
{
    if s.len() > 0 && s.last() == '/' {
        let init = s.drop_last();
        only_end_slashes_are_cut(init);
        let n = without_end_slashes(s).len() as int;
        assert(s.take(n) =~= init.take(n));
        assert forall|i: int| n <= i < s.len() implies #[trigger] s[i] == '/' by {
            if i < init.len() {
                assert(init[i] == s[i]);
            }
        }
    } else {
        assert(s.take(s.len() as int) =~= s);
    }
}

proof fn only_white_space_is_cut_behind(s: Seq<char>)
    ensures
        trimmed_end(s).len() <= s.len(),
        s.take(trimmed_end(s).len() as int) == trimmed_end(s),
        forall|i: int| trimmed_end(s).len() <= i < s.len() ==> white_space(#[trigger] s[i]),
        trimmed_end(s).len() > 0 ==> !white_space(trimmed_end(s).last()),
    decreases s.len(),
{
    if s.len() > 0 && white_space(s.last()) {
        let init = s.drop_last();
        only_white_space_is_cut_behind(init);
        let n = trimmed_end(s).len() as int;
        assert(s.take(n) =~= init.take(n));
        assert forall|i: int| n <= i < s.len() implies white_space(#[trigger] s[i]) by {
            if i < init.len() {
                assert(init[i] == s[i]);
            }
        }
    } else {
        assert(s.take(s.len() as int) =~= s);
    }
}

proof fn only_white_space_is_cut_in_front(s: Seq<char>)
    ensures
        trimmed_start(s).len() <= s.len(),
        s.skip(s.len() - trimmed_start(s).len()) == trimmed_start(s),
        forall|i: int| 0 <= i < s.len() - trimmed_start(s).len() ==> white_space(#[trigger] s[i]),
        trimmed_start(s).len() > 0 ==> !white_space(trimmed_start(s)[0]),
    decreases s.len(),
{
    if s.len() > 0 && white_space(s[0]) {
        let rest = s.drop_first();
        only_white_space_is_cut_in_front(rest);
        let n = s.len() - trimmed_start(s).len();
        assert(s.skip(n) =~= rest.skip(n - 1));
        assert forall|i: int| 0 <= i < n implies white_space(#[trigger] s[i]) by {
            if i > 0 {
                assert(rest[i - 1] == s[i]);
            }
        }
    } else {
        assert(s.skip(0) =~= s);
    }
}

/// Trimming cuts off the white space at both ends, all of it and nothing else.
pub proof fn only_white_space_is_trimmed(s: Seq<char>) -> (r: (int, int))
    ensures
        0 <= r.0 <= r.1 <= s.len(),
        trimmed(s) == s.subrange(r.0, r.1),
        forall|i: int| 0 <= i < r.0 || r.1 <= i < s.len() ==> white_space(#[trigger] s[i]),
        trimmed(s).len() > 0 ==> !white_space(trimmed(s)[0]) && !white_space(trimmed(s).last()),
{
    let front = trimmed_start(s);
    only_white_space_is_cut_in_front(s);
    only_white_space_is_cut_behind(front);
    let a = s.len() - front.len();
    let b = a + trimmed(s).len();
    assert(trimmed(s) =~= s.subrange(a, b));
    assert forall|i: int| 0 <= i < a || b <= i < s.len() implies white_space(#[trigger] s[i]) by {
        if i >= b {
            assert(front[i - a] == s[i]);
        }
    }
    if trimmed(s).len() > 0 {
        assert(trimmed(s)[0] == front[0]);
    }
    (a, b)
}

/// A text without white space is one word; white space parts words and is in none of them.
pub proof fn white_space_parts_words(a: Seq<char>, c: char, b: Seq<char>)
    requires
        white_space(c),
    ensures
        words(a.push(c) + b) == words(a) + words(b),
    decreases b.len(),
{
    let s = a.push(c) + b;
    if b.len() == 0 {
        assert(s =~= a.push(c));
        assert(s.drop_last() =~= a);
        assert(words(a) + words(b) =~= words(a));
    } else {
        let init = b.drop_last();
        white_space_parts_words(a, c, init);
        assert(s.drop_last() =~= a.push(c) + init);
        assert(s.last() == b.last());
        let before = words(init);
        let all = words(a) + before;
        if white_space(b.last()) {
        } else if b.len() == 1 {
            assert(s[s.len() - 2] == c);
            assert(before.len() == 0);
            assert(all.push(seq![b.last()]) =~= words(a) + before.push(seq![b.last()]));
        } else {
            assert(s[s.len() - 2] == b[b.len() - 2]);
            if white_space(b[b.len() - 2]) {
                assert(all.push(seq![b.last()]) =~= words(a) + before.push(seq![b.last()]));
            } else {
                word_ends_there(init);
                assert(all.last() == before.last());
                assert(all.drop_last() =~= words(a) + before.drop_last());
                let word = before.last().push(b.last());
                assert(all.drop_last().push(word) =~= words(a) + before.drop_last().push(word));
            }
        }
    }
}

proof fn word_ends_there(s: Seq<char>)
    requires
        s.len() > 0,
        !white_space(s.last()),
    ensures
        words(s).len() > 0,
{
}

/// A text without white space is one word.
pub proof fn text_without_white_space_is_a_word(s: Seq<char>)
    requires
        s.len() > 0,
        forall|i: int| 0 <= i < s.len() ==> !white_space(#[trigger] s[i]),
    ensures
        words(s) == seq![s],
        words(Seq::empty()) == Seq::<Seq<char>>::empty(),
    decreases s.len(),
{
    let init = s.drop_last();
    if init.len() == 0 {
        assert(words(init) =~= Seq::empty());
        assert(seq![s.last()] =~= s);
        assert(words(s) =~= seq![s]);
    } else {
        assert forall|i: int| 0 <= i < init.len() implies !white_space(#[trigger] init[i]) by {
            assert(init[i] == s[i]);
        }
        text_without_white_space_is_a_word(init);
        assert(init.push(s.last()) =~= s);
        assert(words(s) =~= seq![s]);
    }
}

/// Texts are ordered as words in a dictionary: a text does not come after one that goes on
/// from it, and where they part the smaller character comes first.
pub proof fn texts_are_ordered_as_in_a_dictionary(
    start: Seq<char>,
    a: char,
    more: Seq<char>,
    b: char,
    other: Seq<char>,
)
    ensures
        at_most(start, start + more),
        a < b ==> at_most(start.push(a) + more, start.push(b) + other),
        a < b ==> !at_most(start.push(b) + other, start.push(a) + more),
        more.len() > 0 ==> !at_most(start + more, start),
    decreases start.len(),
{
    let x = start.push(a) + more;
    let y = start.push(b) + other;
    if start.len() > 0 {
        let rest = start.drop_first();
        texts_are_ordered_as_in_a_dictionary(rest, a, more, b, other);
        assert((start + more).drop_first() =~= rest + more);
        assert(x.drop_first() =~= rest.push(a) + more);
        assert(y.drop_first() =~= rest.push(b) + other);
        assert(x[0] == start[0] && y[0] == start[0]);
    } else {
        assert(x[0] == a && y[0] == b);
    }
}

/// A text in which a part does not stand stays as it is; where the part stands first, what
/// comes in its place stands there, and the rest is dealt with alike.
pub proof fn parts_are_replaced(front: Seq<char>, part: Seq<char>, by_text: Seq<char>, rest: Seq<char>)
    requires
        part.len() > 0,
        forall|i: int| 0 <= i < front.len() ==> !stands_at(front + part + rest, part, i),
    ensures
        replaced(front + part + rest, part, by_text) == front + by_text + replaced(
            rest,
            part,
            by_text,
        ),
    decreases front.len(),
{
    let s = front + part + rest;
    if front.len() == 0 {
        assert(s.subrange(0, part.len() as int) =~= part);
        assert(stands_at(s, part, 0));
        assert(s.skip(part.len() as int) =~= rest);
        assert(front + by_text =~= by_text);
    } else {
        assert(!stands_at(s, part, 0));
        let less = front.drop_first();
        assert(s.skip(1) =~= less + part + rest);
        assert forall|i: int| 0 <= i < less.len() implies !stands_at(less + part + rest, part, i) by {
            assert((less + part + rest).subrange(i, i + part.len()) =~= s.subrange(
                i + 1,
                i + 1 + part.len(),
            ));
            assert(!stands_at(s, part, i + 1));
        }
        parts_are_replaced(less, part, by_text, rest);
        assert(seq![s[0]] + (less + by_text + replaced(rest, part, by_text)) =~= front + by_text
            + replaced(rest, part, by_text));
    }
}

/// A text in which a part does not stand stays as it is.
pub proof fn nothing_else_is_replaced(s: Seq<char>, part: Seq<char>, by_text: Seq<char>)
    requires
        !has_part(s, part),
    ensures
        replaced(s, part, by_text) == s,
    decreases s.len(),
{
    if part.len() > 0 && s.len() >= part.len() {
        assert(!stands_at(s, part, 0));
        let rest = s.skip(1);
        assert(!has_part(rest, part)) by {
            if has_part(rest, part) {
                let i = choose|i: int| #[trigger] stands_at(rest, part, i);
                assert(rest.subrange(i, i + part.len()) =~= s.subrange(i + 1, i + 1 + part.len()));
                assert(stands_at(s, part, i + 1));
            }
        }
        nothing_else_is_replaced(rest, part, by_text);
        assert(seq![s[0]] + rest =~= s);
    }
}

/// Of parts those that are not empty are left, in their order.
pub proof fn filled_parts_are_left(parts: Seq<Seq<char>>, part: Seq<char>)
    ensures
        filled(Seq::empty()) == Seq::<Seq<char>>::empty(),
        part.len() > 0 ==> filled(parts.push(part)) == filled(parts).push(part),
        part.len() == 0 ==> filled(parts.push(part)) == filled(parts),
{
    broadcast use Seq::lemma_filter_push;

    reveal(Seq::filter);
}

proof fn last_dot_is_last(name: Seq<char>)
    ensures
        -1 <= last_dot(name) < name.len(),
        last_dot(name) >= 0 ==> name[last_dot(name)] == '.',
        forall|i: int| last_dot(name) < i < name.len() ==> #[trigger] name[i] != '.',
    decreases name.len(),
{
    if name.len() > 0 && name.last() != '.' {
        let init = name.drop_last();
        last_dot_is_last(init);
        assert forall|i: int| last_dot(name) < i < name.len() implies #[trigger] name[i] != '.' by {
            if i < init.len() {
                assert(init[i] == name[i]);
            }
        }
    }
}

/// A file name with an extension is its stem, a dot and the extension: the stem is not empty,
/// and the extension holds no dot. A name without one is its own stem: it has no dot but at
/// its beginning, or is two dots.
pub proof fn names_split_at_their_last_dot(name: Seq<char>)
    ensures
        extension(name) matches Some(ext) ==> {
            &&& name == stem(name) + seq!['.'] + ext
            &&& stem(name).len() > 0
            &&& forall|i: int| 0 <= i < ext.len() ==> #[trigger] ext[i] != '.'
        },
        extension(name) is None ==> {
            &&& stem(name) == name
            &&& name == ".."@ || forall|i: int| 1 <= i < name.len() ==> #[trigger] name[i] != '.'
        },
        name == ".."@ ==> extension(name) is None,
{
    last_dot_is_last(name);
    if has_extension(name) {
        let at = last_dot(name);
        assert(name =~= name.take(at) + seq!['.'] + name.skip(at + 1));
    }
}

/// The stem and the extension of a path are those of the name at its end.
pub proof fn paths_split_by_their_name(path: Seq<char>, name: Seq<char>)
    requires
        file_name(path) == Some(name),
    ensures
        path_stem(path) == stem(name),
        path_extension(path) == extension(name),
        or_empty(file_name(path)) == name,
{
}

/// A name in a folder stands behind the folder, with one slash between them.
pub proof fn names_stand_behind_their_folder(folder: Seq<char>, name: Seq<char>)
    requires
        folder.len() > 0,
    ensures
        folder.last() != '/' ==> inside(folder, name) == folder + seq!['/'] + name,
        folder.last() == '/' ==> inside(folder, name) == folder + name,
{
    reveal_strlit("/");
    assert("/"@ =~= seq!['/']);
}

/// A path below the home folder is shown with `~` in its place, and no other path changes.
pub proof fn home_is_shown_short(home: Seq<char>, rest: Seq<char>, path: Seq<char>)
    requires
        home.len() > 0,
    ensures
        shown_path(home + rest, home) == seq!['~'] + rest,
        !home.is_prefix_of(path) ==> shown_path(path, home) == path,
        shown_path(path, Seq::empty()) == path,
{
    reveal_strlit("~");
    assert("~"@ =~= seq!['~']);
    assert((home + rest).skip(home.len() as int) =~= rest);
    assert(home.is_prefix_of(home + rest));
}

/// The character that a name is found by is the first one of the lowercase mapping of its
/// first character.
pub proof fn lower_char_comes_first(c: char)
    requires
        lower_chars(c).len() > 0,
    ensures
        lower_char(c) == lower_chars(c)[0],
{
}

/// The extensions of audio files, with or without a dot, and no others.
pub proof fn audio_extensions_are_these(ext: Seq<char>)
    ensures
        audio_extension(ext) <==> {
            let bare = if ext.len() > 0 && ext[0] == '.' {
                ext.drop_first()
            } else {
                ext
            };
            ||| bare == "mp3"@
            ||| bare == "flac"@
            ||| bare == "ogg"@
            ||| bare == "opus"@
            ||| bare == "wav"@
            ||| bare == "aac"@
            ||| bare == "m4a"@
            ||| bare == "wma"@
            ||| bare == "aiff"@
            ||| bare == "aif"@
            ||| bare == "ape"@
            ||| bare == "wv"@
            ||| bare == "mka"@
            ||| bare == "oga"@
            ||| bare == "dsf"@
            ||| bare == "dff"@
        },
{
    let bare = if ext.len() > 0 && ext[0] == '.' {
        ext.drop_first()
    } else {
        ext
    };
    reveal_strlit(".");
    assert("."@ =~= seq!['.']);
    assert(dotted(ext) =~= seq!['.'] + bare);
    endings_are_these();
    if audio_extension(ext) {
        let i = choose|i: int|
            0 <= i < AUDIO_EXTENSIONS@.len() && (#[trigger] AUDIO_EXTENSIONS@[i])@ == dotted(ext);
        assert(AUDIO_EXTENSIONS@[i]@ == dotted(ext));
        dots_in_front_cancel(bare, "mp3"@);
        dots_in_front_cancel(bare, "flac"@);
        dots_in_front_cancel(bare, "ogg"@);
        dots_in_front_cancel(bare, "opus"@);
        dots_in_front_cancel(bare, "wav"@);
        dots_in_front_cancel(bare, "aac"@);
        dots_in_front_cancel(bare, "m4a"@);
        dots_in_front_cancel(bare, "wma"@);
        dots_in_front_cancel(bare, "aiff"@);
        dots_in_front_cancel(bare, "aif"@);
        dots_in_front_cancel(bare, "ape"@);
        dots_in_front_cancel(bare, "wv"@);
        dots_in_front_cancel(bare, "mka"@);
        dots_in_front_cancel(bare, "oga"@);
        dots_in_front_cancel(bare, "dsf"@);
        dots_in_front_cancel(bare, "dff"@);
    }
}

proof fn dots_in_front_cancel(a: Seq<char>, b: Seq<char>)
    ensures
        seq!['.'] + a == seq!['.'] + b ==> a == b,
{
    assert(a =~= (seq!['.'] + a).drop_first());
    assert(b =~= (seq!['.'] + b).drop_first());
}

proof fn endings_are_these()
    ensures
        AUDIO_EXTENSIONS@.len() == 16,
        AUDIO_EXTENSIONS@[0]@ == seq!['.'] + "mp3"@,
        AUDIO_EXTENSIONS@[1]@ == seq!['.'] + "flac"@,
        AUDIO_EXTENSIONS@[2]@ == seq!['.'] + "ogg"@,
        AUDIO_EXTENSIONS@[3]@ == seq!['.'] + "opus"@,
        AUDIO_EXTENSIONS@[4]@ == seq!['.'] + "wav"@,
        AUDIO_EXTENSIONS@[5]@ == seq!['.'] + "aac"@,
        AUDIO_EXTENSIONS@[6]@ == seq!['.'] + "m4a"@,
        AUDIO_EXTENSIONS@[7]@ == seq!['.'] + "wma"@,
        AUDIO_EXTENSIONS@[8]@ == seq!['.'] + "aiff"@,
        AUDIO_EXTENSIONS@[9]@ == seq!['.'] + "aif"@,
        AUDIO_EXTENSIONS@[10]@ == seq!['.'] + "ape"@,
        AUDIO_EXTENSIONS@[11]@ == seq!['.'] + "wv"@,
        AUDIO_EXTENSIONS@[12]@ == seq!['.'] + "mka"@,
        AUDIO_EXTENSIONS@[13]@ == seq!['.'] + "oga"@,
        AUDIO_EXTENSIONS@[14]@ == seq!['.'] + "dsf"@,
        AUDIO_EXTENSIONS@[15]@ == seq!['.'] + "dff"@,
{
    reveal_strlit("mp3");
    reveal_strlit(".mp3");
    assert(AUDIO_EXTENSIONS@[0]@ =~= seq!['.'] + "mp3"@);
    reveal_strlit("flac");
    reveal_strlit(".flac");
    assert(AUDIO_EXTENSIONS@[1]@ =~= seq!['.'] + "flac"@);
    reveal_strlit("ogg");
    reveal_strlit(".ogg");
    assert(AUDIO_EXTENSIONS@[2]@ =~= seq!['.'] + "ogg"@);
    reveal_strlit("opus");
    reveal_strlit(".opus");
    assert(AUDIO_EXTENSIONS@[3]@ =~= seq!['.'] + "opus"@);
    reveal_strlit("wav");
    reveal_strlit(".wav");
    assert(AUDIO_EXTENSIONS@[4]@ =~= seq!['.'] + "wav"@);
    reveal_strlit("aac");
    reveal_strlit(".aac");
    assert(AUDIO_EXTENSIONS@[5]@ =~= seq!['.'] + "aac"@);
    reveal_strlit("m4a");
    reveal_strlit(".m4a");
    assert(AUDIO_EXTENSIONS@[6]@ =~= seq!['.'] + "m4a"@);
    reveal_strlit("wma");
    reveal_strlit(".wma");
    assert(AUDIO_EXTENSIONS@[7]@ =~= seq!['.'] + "wma"@);
    reveal_strlit("aiff");
    reveal_strlit(".aiff");
    assert(AUDIO_EXTENSIONS@[8]@ =~= seq!['.'] + "aiff"@);
    reveal_strlit("aif");
    reveal_strlit(".aif");
    assert(AUDIO_EXTENSIONS@[9]@ =~= seq!['.'] + "aif"@);
    reveal_strlit("ape");
    reveal_strlit(".ape");
    assert(AUDIO_EXTENSIONS@[10]@ =~= seq!['.'] + "ape"@);
    reveal_strlit("wv");
    reveal_strlit(".wv");
    assert(AUDIO_EXTENSIONS@[11]@ =~= seq!['.'] + "wv"@);
    reveal_strlit("mka");
    reveal_strlit(".mka");
    assert(AUDIO_EXTENSIONS@[12]@ =~= seq!['.'] + "mka"@);
    reveal_strlit("oga");
    reveal_strlit(".oga");
    assert(AUDIO_EXTENSIONS@[13]@ =~= seq!['.'] + "oga"@);
    reveal_strlit("dsf");
    reveal_strlit(".dsf");
    assert(AUDIO_EXTENSIONS@[14]@ =~= seq!['.'] + "dsf"@);
    reveal_strlit("dff");
    reveal_strlit(".dff");
    assert(AUDIO_EXTENSIONS@[15]@ =~= seq!['.'] + "dff"@);
}

/// A number may be written with a plus; one that does not fit is not read.
pub proof fn numbers_may_have_a_plus(n: nat)
    ensures
        n <= i32::MAX ==> small_number(seq!['+'] + digits(n)) == Some(n as int),
        n > i32::MAX ==> small_number(digits(n)) is None,
        n > i32::MAX ==> small_number(seq!['+'] + digits(n)) is None,
        n > -i32::MIN ==> small_number(seq!['-'] + digits(n)) is None,
{
    numbers_read_as_written(n);
    assert((seq!['+'] + digits(n)).drop_first() =~= digits(n));
    assert((seq!['-'] + digits(n)).drop_first() =~= digits(n));
    assert(is_digit(digits(n)[0]));
}

/// Only a number is read: digits, with a sign in front or none.
pub proof fn only_numbers_are_read(s: Seq<char>)
    requires
        small_number(s) is Some,
    ensures
        s.len() > 0,
        is_digit(s[0]) || s.len() > 1 && (s[0] == '+' || s[0] == '-'),
        forall|i: int| 1 <= i < s.len() ==> is_digit(#[trigger] s[i]),
{
    if s[0] == '+' || s[0] == '-' {
        let body = s.drop_first();
        assert forall|i: int| 1 <= i < s.len() implies is_digit(#[trigger] s[i]) by {
            assert(body[i - 1] == s[i]);
        }
    }
}

} // verus!
