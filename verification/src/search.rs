//! What is done with what the user types.
use crate::text::{
    alphanumeric, lower_char, lowercase, split_words, texts, to_lower_char, trim, trimmed, words,
};
use vstd::prelude::*;

verus! {

/// What a search does.
pub enum SearchPlan {
    /// Nothing is searched for.
    Clear,
    /// The list jumps to the first entry that begins with a character.
    Jump(char),
    /// Songs are searched in which all words occur.
    Find(String, Vec<String>),
}

/// The content of a `SearchPlan`.
pub enum Plan {
    Clear,
    Jump(char),
    Find(Seq<char>, Seq<Seq<char>>),
}

impl View for SearchPlan {
    type V = Plan;

    open spec fn view(&self) -> Plan {
        match *self {
            SearchPlan::Clear => Plan::Clear,
            SearchPlan::Jump(c) => Plan::Jump(c),
            SearchPlan::Find(q, w) => Plan::Find(q@, texts(w@)),
        }
    }
}

/// What a search for a text in lowercase, without white space around it, does: a
/// single character is jumped to.
pub open spec fn plan_for(q: Seq<char>) -> Plan {
    if q.len() == 0 {
        Plan::Clear
    } else if q.len() == 1 {
        Plan::Jump(q[0])
    } else {
        Plan::Find(q, words(q))
    }
}

/// What a search does, by the text without white space around it, in lowercase.
pub open spec fn plan(query: Seq<char>) -> Plan {
    plan_for(lowercase(trimmed(query)))
}

/// What a search for a text in lowercase, without white space around it, does.
pub fn search_for(q: String) -> (r: SearchPlan)
    ensures
        r@ == plan_for(q@),
{
    let n: usize = q.as_str().unicode_len();
    if n == 0 {
        SearchPlan::Clear
    } else if n == 1 {
        SearchPlan::Jump(q.as_str().get_char(0))
    } else {
        let found = split_words(q.as_str());
        SearchPlan::Find(q, found)
    }
}

/// What a search does.
pub fn on_search_changed(query: &str) -> (r: SearchPlan)
    ensures
        r@ == plan(query@),
{
    search_for(trim(query).as_str().to_lowercase())
}

/// The first characters of names, in lowercase.
pub open spec fn initials(names: Seq<Seq<char>>) -> Seq<Option<char>> {
    names.map_values(
        |name: Seq<char>|
            if name.len() > 0 {
                Some(lower_char(name[0]))
            } else {
                None
            },
    )
}

/// The first place of a character.
pub open spec fn jump_place(firsts: Seq<Option<char>>, target: char) -> Option<int>
    decreases firsts.len(),
{
    if firsts.len() == 0 {
        None
    } else {
        match jump_place(firsts.drop_last(), target) {
            Some(i) => Some(i),
            None => if firsts.last() == Some(target) {
                Some(firsts.len() - 1)
            } else {
                None
            },
        }
    }
}

proof fn jump_in_front(firsts: Seq<Option<char>>, target: char, n: int)
    requires
        0 <= n <= firsts.len(),
        jump_place(firsts.take(n), target) is Some,
    ensures
        jump_place(firsts, target) == jump_place(firsts.take(n), target),
    decreases firsts.len() - n,
{
    if n < firsts.len() {
        assert(firsts.take(n + 1).drop_last() == firsts.take(n));
        jump_in_front(firsts, target, n + 1);
    } else {
        assert(firsts.take(n) == firsts);
    }
}

/// The first place of a character among the first characters of names.
pub fn jump_among(firsts: &Vec<Option<char>>, target: char) -> (r: Option<usize>)
    ensures
        match r {
            Some(i) => jump_place(firsts@, target) == Some(i as int),
            None => jump_place(firsts@, target) is None,
        },
{
    for i in 0..firsts.len()
        invariant
            jump_place(firsts@.take(i as int), target) is None,
    {
        assert(firsts@.take(i + 1).drop_last() == firsts@.take(i as int));
        let hit = match firsts[i] {
            Some(c) => c == target,
            None => false,
        };
        if hit {
            proof {
                jump_in_front(firsts@, target, i + 1);
            }
            return Some(i);
        }
    }
    assert(firsts@.take(firsts@.len() as int) == firsts@);
    None
}

/// The first name that begins with a character in lowercase.
pub fn jump_to(names: &Vec<String>, target: char) -> (r: Option<usize>)
    ensures
        match r {
            Some(i) => jump_place(initials(texts(names@)), target) == Some(i as int),
            None => jump_place(initials(texts(names@)), target) is None,
        },
{
    let ghost all = initials(texts(names@));
    let mut firsts: Vec<Option<char>> = Vec::new();
    for i in 0..names.len()
        invariant
            all == initials(texts(names@)),
            firsts@ == all.take(i as int),
    {
        let name = names[i].as_str();
        let first = if name.unicode_len() > 0 {
            Some(to_lower_char(name.get_char(0)))
        } else {
            None
        };
        assert(texts(names@)[i as int] == names@[i as int]@);
        assert(first == all[i as int]);
        firsts.push(first);
        assert(firsts@ =~= all.take(i + 1));
    }
    assert(all.take(all.len() as int) =~= all);
    jump_among(&firsts, target)
}

/// What is done with a key.
pub enum KeyAction {
    /// Nothing; others may deal with it.
    Proceed,
    /// The way back is taken.
    Back,
    /// The search is opened with this text.
    Type(String),
}

/// A key that was pressed.
#[derive(Debug, Clone, Copy, PartialEq, Eq, Structural)]
pub enum Key {
    Backspace,
    Character(char),
    Other,
}

/// What is done with a key: nothing while the folders are not shown or the search
/// has the focus. Backspace goes back where nothing is searched for and there is
/// a way back; letters and digits go to the end of the text that is searched for.
/// Whether a key is one of those is given.
pub open spec fn key_effect(
    browse_visible: bool,
    search_focused: bool,
    key: Key,
    is_letter: bool,
    search_text: Seq<char>,
    has_trail: bool,
) -> Option<Option<Seq<char>>> {
    if !browse_visible || search_focused {
        None
    } else {
        match key {
            Key::Backspace => if search_text.len() == 0 && has_trail {
                Some(None)
            } else {
                None
            },
            Key::Character(c) => if is_letter {
                Some(Some(search_text.push(c)))
            } else {
                None
            },
            Key::Other => None,
        }
    }
}

/// Whether a key is a letter or a digit.
pub open spec fn is_letter_key(key: Key) -> bool {
    match key {
        Key::Character(c) => alphanumeric(c),
        _ => false,
    }
}

/// The content of a `KeyAction`: what is done, if anything, and the text that the
/// search is opened with.
pub open spec fn effect_of(action: KeyAction) -> Option<Option<Seq<char>>> {
    match action {
        KeyAction::Proceed => None,
        KeyAction::Back => Some(None),
        KeyAction::Type(t) => Some(Some(t@)),
    }
}

/// What is done with a key of which is known whether it is a letter or a digit.
pub fn action_for(
    browse_visible: bool,
    search_focused: bool,
    key: Key,
    is_letter: bool,
    search_text: &str,
    has_trail: bool,
) -> (r: KeyAction)
    ensures
        effect_of(r) == key_effect(
            browse_visible,
            search_focused,
            key,
            is_letter,
            search_text@,
            has_trail,
        ),
{
    if !browse_visible || search_focused {
        return KeyAction::Proceed;
    }
    match key {
        Key::Backspace => if search_text.is_empty() && has_trail {
            KeyAction::Back
        } else {
            KeyAction::Proceed
        },
        Key::Character(c) => if is_letter {
            let mut t = search_text.to_owned();
            t.push(c);
            KeyAction::Type(t)
        } else {
            KeyAction::Proceed
        },
        Key::Other => KeyAction::Proceed,
    }
}

/// What is done with a key.
pub fn on_key(
    browse_visible: bool,
    search_focused: bool,
    key: Key,
    search_text: &str,
    has_trail: bool,
) -> (r: KeyAction)
    ensures
        effect_of(r) == key_effect(
            browse_visible,
            search_focused,
            key,
            is_letter_key(key),
            search_text@,
            has_trail,
        ),
{
    let is_letter = match key {
        Key::Character(c) => c.is_alphanumeric(),
        _ => false,
    };
    action_for(browse_visible, search_focused, key, is_letter, search_text, has_trail)
}

} // verus!
