//! Text helpers. Strings are looked at as sequences of characters.
use vstd::prelude::*;

verus! {

broadcast use vstd::string::group_string_axioms;

/// `String::push` puts one character behind the text.
pub assume_specification[ String::push ](s: &mut String, c: char)
    ensures
        final(s)@ == old(s)@.push(c),
;

/// What `str::to_lowercase` makes of a text: its lowercase equivalent by the
/// Unicode property `Lowercase`.
pub uninterp spec fn lowercase(s: Seq<char>) -> Seq<char>;

/// `str::to_lowercase` gives the lowercase equivalent of a text, which depends
/// on the text alone.
pub assume_specification[ str::to_lowercase ](s: &str) -> (r: String)
    ensures
        r@ == lowercase(s@),
;

/// What `str::to_uppercase` makes of a text: its uppercase equivalent by the
/// Unicode property `Uppercase`.
pub uninterp spec fn uppercase(s: Seq<char>) -> Seq<char>;

/// `str::to_uppercase` gives the uppercase equivalent of a text, which depends
/// on the text alone.
pub assume_specification[ str::to_uppercase ](s: &str) -> (r: String)
    ensures
        r@ == uppercase(s@),
;

/// Whether a character has the Unicode property `White_Space`.
pub uninterp spec fn white_space(c: char) -> bool;

/// `char::is_whitespace` tells whether a character has the property
/// `White_Space`.
pub assume_specification[ char::is_whitespace ](c: char) -> (r: bool)
    ensures
        r == white_space(c),
;

/// Whether a character is a letter or a number by its Unicode properties.
pub uninterp spec fn alphanumeric(c: char) -> bool;

/// `char::is_alphanumeric` tells whether a character has the property
/// `Alphabetic` or one of the numeric categories.
pub assume_specification[ char::is_alphanumeric ](c: char) -> (r: bool)
    ensures
        r == alphanumeric(c),
;

/// The lowercase mapping that `char::to_lowercase` gives for a character.
pub uninterp spec fn lower_chars(c: char) -> Seq<char>;

/// `char::to_lowercase` yields the lowercase mapping of a character, one character or
/// more, which depends on the character alone.
#[verifier::external_body]
fn lowercase_mapping(c: char) -> (r: String)
    ensures
        r@ == lower_chars(c),
{
    c.to_lowercase().to_string()
}

/// The first character of the lowercase mapping of a character.
pub open spec fn lower_char(c: char) -> char {
    if lower_chars(c).len() > 0 {
        lower_chars(c)[0]
    } else {
        c
    }
}

/// The first character of the lowercase mapping of a character.
pub fn to_lower_char(c: char) -> (r: char)
    ensures
        r == lower_char(c),
{
    let mapping = lowercase_mapping(c);
    if mapping.as_str().unicode_len() > 0 {
        mapping.as_str().get_char(0)
    } else {
        c
    }
}

/// The contents of a list of texts.
pub open spec fn texts(v: Seq<String>) -> Seq<Seq<char>> {
    v.map_values(|s: String| s@)
}

/// The content of a text that may be missing.
pub open spec fn opt_text(s: Option<String>) -> Option<Seq<char>> {
    match s {
        Some(t) => Some(t@),
        None => None,
    }
}

/// The parts, one behind the other, with `sep` between two neighbours.
pub open spec fn joined(parts: Seq<Seq<char>>, sep: Seq<char>) -> Seq<char>
    decreases parts.len(),
{
    if parts.len() == 0 {
        Seq::empty()
    } else if parts.len() == 1 {
        parts[0]
    } else {
        joined(parts.drop_last(), sep) + sep + parts.last()
    }
}

/// Whether `part` stands somewhere in `s`.
pub open spec fn has_part(s: Seq<char>, part: Seq<char>) -> bool {
    exists|i: int| #[trigger] stands_at(s, part, i)
}

/// Whether `part` stands in `s` from position `i` on.
pub open spec fn stands_at(s: Seq<char>, part: Seq<char>, i: int) -> bool {
    0 <= i && i + part.len() <= s.len() && s.subrange(i, i + part.len()) == part
}

/// The text without the slashes at its end.
pub open spec fn without_end_slashes(s: Seq<char>) -> Seq<char>
    decreases s.len(),
{
    if s.len() > 0 && s.last() == '/' {
        without_end_slashes(s.drop_last())
    } else {
        s
    }
}

/// The text without the white space at its end.
pub open spec fn trimmed_end(s: Seq<char>) -> Seq<char>
    decreases s.len(),
{
    if s.len() > 0 && white_space(s.last()) {
        trimmed_end(s.drop_last())
    } else {
        s
    }
}

/// The text without the white space at its start.
pub open spec fn trimmed_start(s: Seq<char>) -> Seq<char>
    decreases s.len(),
{
    if s.len() > 0 && white_space(s[0]) {
        trimmed_start(s.drop_first())
    } else {
        s
    }
}

/// The text without the white space at both ends.
pub open spec fn trimmed(s: Seq<char>) -> Seq<char> {
    trimmed_end(trimmed_start(s))
}

/// The words of a text: its longest runs of characters that are no white space.
pub open spec fn words(s: Seq<char>) -> Seq<Seq<char>>
    decreases s.len(),
{
    if s.len() == 0 {
        Seq::empty()
    } else {
        let before = words(s.drop_last());
        if white_space(s.last()) {
            before
        } else if s.len() == 1 || white_space(s[s.len() - 2]) {
            before.push(seq![s.last()])
        } else {
            before.drop_last().push(before.last().push(s.last()))
        }
    }
}

/// The decimal digit of a number below ten.
pub open spec fn digit(d: nat) -> char {
    if d == 0 {
        '0'
    } else if d == 1 {
        '1'
    } else if d == 2 {
        '2'
    } else if d == 3 {
        '3'
    } else if d == 4 {
        '4'
    } else if d == 5 {
        '5'
    } else if d == 6 {
        '6'
    } else if d == 7 {
        '7'
    } else if d == 8 {
        '8'
    } else {
        '9'
    }
}

/// A number in decimal digits, without leading zeros.
pub open spec fn digits(n: nat) -> Seq<char>
    decreases n,
{
    if n < 10 {
        seq![digit(n)]
    } else {
        digits(n / 10).push(digit(n % 10))
    }
}

/// A signed number in decimal digits.
pub open spec fn signed_digits(n: int) -> Seq<char> {
    if n < 0 {
        seq!['-'] + digits((-n) as nat)
    } else {
        digits(n as nat)
    }
}

/// Whether a character is a decimal digit.
pub open spec fn is_digit(c: char) -> bool {
    '0' <= c <= '9'
}

/// Whether all characters are decimal digits.
pub open spec fn all_digits(s: Seq<char>) -> bool {
    forall|i: int| 0 <= i < s.len() ==> is_digit(#[trigger] s[i])
}

/// The number that decimal digits stand for.
pub open spec fn digits_value(s: Seq<char>) -> nat
    decreases s.len(),
{
    if s.len() == 0 {
        0
    } else {
        (digits_value(s.drop_last()) * 10 + (s.last() as int - '0' as int)) as nat
    }
}

/// The number of 32 bits that a text stands for: digits, of which there is at
/// least one, behind a sign or none.
pub open spec fn small_number(s: Seq<char>) -> Option<int> {
    let signed = s.len() > 0 && (s[0] == '+' || s[0] == '-');
    let body = if signed {
        s.drop_first()
    } else {
        s
    };
    let value = if signed && s[0] == '-' {
        -(digits_value(body) as int)
    } else {
        digits_value(body) as int
    };
    if body.len() > 0 && all_digits(body) && i32::MIN <= value <= i32::MAX {
        Some(value)
    } else {
        None
    }
}

/// Whether `a` comes before `b` or is the same, character by character.
pub open spec fn at_most(a: Seq<char>, b: Seq<char>) -> bool
    decreases a.len(),
{
    if a.len() == 0 {
        true
    } else if b.len() == 0 {
        false
    } else if a[0] != b[0] {
        (a[0] as int) < (b[0] as int)
    } else {
        at_most(a.drop_first(), b.drop_first())
    }
}

/// The characters of a text.
pub fn chars_of(s: &str) -> (v: Vec<char>)
    ensures
        v@ == s@,
{
    let mut v: Vec<char> = Vec::new();
    for c in it: s.chars()
        invariant
            it.seq() == s@,
            v@ == s@.take(it.index() as int),
    {
        v.push(c);
    }
    v
}

/// The text made of some characters.
pub fn text_of(v: &Vec<char>) -> (s: String)
    ensures
        s@ == v@,
{
    let mut s = String::new();
    for i in 0..v.len()
        invariant
            s@ == v@.take(i as int),
    {
        s.push(v[i]);
    }
    assert(v@.take(v@.len() as int) == v@);
    s
}

/// Whether two texts are the same.
pub fn same(a: &str, b: &str) -> (r: bool)
    ensures
        r == (a@ == b@),
{
    a.to_owned() == b.to_owned()
}

/// One text behind the other.
pub fn glued(a: &str, b: &str) -> (r: String)
    ensures
        r@ == a@ + b@,
{
    a.to_owned().concat(b)
}

/// A copy of a list of texts.
pub fn copied(v: &Vec<String>) -> (r: Vec<String>)
    ensures
        texts(r@) == texts(v@),
{
    let mut r: Vec<String> = Vec::new();
    for i in 0..v.len()
        invariant
            texts(r@) == texts(v@).take(i as int),
    {
        let ghost before = r@;
        r.push(v[i].clone());
        assert(texts(r@) == texts(before).push(v@[i as int]@));
    }
    assert(texts(v@).take(v@.len() as int) == texts(v@));
    r
}

/// The parts, one behind the other, with `sep` between two neighbours.
pub fn join(parts: &Vec<String>, sep: &str) -> (r: String)
    ensures
        r@ == joined(texts(parts@), sep@),
{
    let mut r = String::new();
    for i in 0..parts.len()
        invariant
            r@ == joined(texts(parts@).take(i as int), sep@),
    {
        let ghost before = texts(parts@).take(i as int);
        let ghost after = texts(parts@).take(i + 1);
        assert(after.drop_last() == before);
        assert(after.last() == parts@[i as int]@);
        if i > 0 {
            r.append(sep);
        }
        r.append(parts[i].as_str());
        assert(r@ == joined(after, sep@));
    }
    assert(texts(parts@).take(parts@.len() as int) == texts(parts@));
    r
}

/// Whether one of the texts is `t`.
pub fn lists(v: &Vec<String>, t: &str) -> (r: bool)
    ensures
        r == texts(v@).contains(t@),
{
    for i in 0..v.len()
        invariant
            forall|j: int| 0 <= j < i ==> v@[j]@ != t@,
    {
        if same(v[i].as_str(), t) {
            assert(texts(v@)[i as int] == t@);
            return true;
        }
    }
    false
}

/// Whether `s` begins with `start`.
pub fn begins_with(s: &str, start: &str) -> (r: bool)
    ensures
        r == start@.is_prefix_of(s@),
{
    let n: usize = start.unicode_len();
    if n <= s.unicode_len() {
        let head = s.substring_char(0, n);
        same(head, start)
    } else {
        false
    }
}

/// Whether `part` stands somewhere in `s`.
pub fn contains_part(s: &str, part: &str) -> (r: bool)
    ensures
        r == has_part(s@, part@),
{
    let n: usize = s.unicode_len();
    let m: usize = part.unicode_len();
    if m > n {
        return false;
    }
    if m == 0 {
        assert(s@.subrange(0, 0) == part@);
        assert(stands_at(s@, part@, 0));
        return true;
    }
    for i in 0..(n - m + 1)
        invariant
            n == s@.len(),
            m == part@.len(),
            0 < m <= n,
            forall|j: int| 0 <= j < i ==> !stands_at(s@, part@, j),
    {
        if same(s.substring_char(i, i + m), part) {
            assert(stands_at(s@, part@, i as int));
            return true;
        }
    }
    assert forall|j: int| !stands_at(s@, part@, j) by {
        if 0 <= j && j + part@.len() <= s@.len() {
            assert(0 <= j < n - m + 1);
        }
    }
    false
}

/// The text without the slashes at its end.
pub fn trim_end_slashes(s: &str) -> (r: String)
    ensures
        r@ == without_end_slashes(s@),
{
    let mut v = chars_of(s);
    while v.len() > 0 && v[v.len() - 1] == '/'
        invariant
            without_end_slashes(v@) == without_end_slashes(s@),
        decreases v.len(),
    {
        let ghost whole = v@;
        v.pop();
        assert(v@ == whole.drop_last());
    }
    text_of(&v)
}

/// The text without the white space at both ends.
pub fn trim(s: &str) -> (r: String)
    ensures
        r@ == trimmed(s@),
{
    let all = chars_of(s);
    let mut from: usize = 0;
    assert(all@.skip(0) == s@);
    while from < all.len() && all[from].is_whitespace()
        invariant
            from <= all.len(),
            all@ == s@,
            trimmed_start(all@.skip(from as int)) == trimmed_start(s@),
        decreases all.len() - from,
    {
        assert(all@.skip(from as int).drop_first() == all@.skip(from + 1));
        from = from + 1;
    }
    assert(trimmed_start(s@) == all@.skip(from as int));
    let mut to: usize = all.len();
    assert(all@.subrange(from as int, to as int) == all@.skip(from as int));
    while to > from && all[to - 1].is_whitespace()
        invariant
            from <= to <= all.len(),
            trimmed_end(all@.subrange(from as int, to as int)) == trimmed(s@),
        decreases to,
    {
        assert(all@.subrange(from as int, to as int).drop_last() == all@.subrange(
            from as int,
            to - 1,
        ));
        to = to - 1;
    }
    let mut r = String::new();
    for i in from..to
        invariant
            from <= to <= all.len(),
            r@ == all@.subrange(from as int, i as int),
    {
        r.push(all[i]);
    }
    r
}

/// The words of a text.
pub fn split_words(s: &str) -> (r: Vec<String>)
    ensures
        texts(r@) == words(s@),
{
    let all = chars_of(s);
    let mut done: Vec<String> = Vec::new();
    let mut word = String::new();
    for i in 0..all.len()
        invariant
            all@ == s@,
            word@.len() == 0 <==> (i == 0 || white_space(all@[i - 1])),
            words(all@.take(i as int)) == if word@.len() == 0 {
                texts(done@)
            } else {
                texts(done@).push(word@)
            },
    {
        let c = all[i];
        let ghost head = all@.take(i + 1);
        assert(head.drop_last() == all@.take(i as int));
        assert(head.last() == c);
        if c.is_whitespace() {
            if !word.as_str().is_empty() {
                let ghost old_done = done@;
                done.push(word);
                assert(texts(done@) == texts(old_done).push(word@));
                word = String::new();
            }
        } else {
            let ghost old_word = word@;
            word.push(c);
            proof {
                if old_word.len() == 0 {
                    assert(word@ == seq![c]);
                } else {
                    assert(texts(done@).push(old_word).drop_last() == texts(done@));
                }
            }
        }
    }
    assert(all@.take(all@.len() as int) == all@);
    if !word.as_str().is_empty() {
        let ghost old_done = done@;
        done.push(word);
        assert(texts(done@) == texts(old_done).push(word@));
    }
    done
}

/// A number in decimal digits.
pub fn decimal(n: u64) -> (r: String)
    ensures
        r@ == digits(n as nat),
    decreases n,
{
    let mut r = if n < 10 {
        String::new()
    } else {
        decimal(n / 10)
    };
    let d: u64 = n % 10;
    let c = if d == 0 {
        '0'
    } else if d == 1 {
        '1'
    } else if d == 2 {
        '2'
    } else if d == 3 {
        '3'
    } else if d == 4 {
        '4'
    } else if d == 5 {
        '5'
    } else if d == 6 {
        '6'
    } else if d == 7 {
        '7'
    } else if d == 8 {
        '8'
    } else {
        '9'
    };
    r.push(c);
    r
}

/// A signed number in decimal digits.
pub fn signed_decimal(n: i32) -> (r: String)
    ensures
        r@ == signed_digits(n as int),
{
    if n < 0 {
        let mut r = String::new();
        r.push('-');
        r.append(decimal((-(n as i64)) as u64).as_str());
        assert(r@ == seq!['-'] + digits((-n) as nat));
        r
    } else {
        decimal(n as u64)
    }
}

proof fn digits_value_grows(s: Seq<char>, n: int)
    requires
        0 <= n <= s.len(),
        all_digits(s),
    ensures
        digits_value(s.take(n)) <= digits_value(s),
    decreases s.len(),
{
    if n == s.len() {
        assert(s.take(n) == s);
    } else {
        assert(is_digit(s.last()));
        assert forall|i: int| 0 <= i < s.drop_last().len() implies is_digit(
            #[trigger] s.drop_last()[i],
        ) by {
            assert(is_digit(s[i]));
        }
        digits_value_grows(s.drop_last(), n);
        assert(s.drop_last().take(n) == s.take(n));
    }
}

/// The number of 32 bits that a text stands for.
pub fn parse_small(s: &str) -> (r: Option<i32>)
    ensures
        match r {
            Some(n) => small_number(s@) == Some(n as int),
            None => small_number(s@) is None,
        },
{
    let all = chars_of(s);
    let minus = all.len() > 0 && all[0] == '-';
    let from: usize = if all.len() > 0 && (all[0] == '+' || all[0] == '-') {
        1
    } else {
        0
    };
    let ghost body = all@.skip(from as int);
    assert(body == if from == 1 {
        s@.drop_first()
    } else {
        s@
    });
    if all.len() == from {
        return None;
    }
    let mut value: i64 = 0;
    for i in from..all.len()
        invariant
            all@ == s@,
            0 <= from <= 1,
            from < all.len(),
            minus == (s@.len() > 0 && s@[0] == '-'),
            from == 1 <==> (s@.len() > 0 && (s@[0] == '+' || s@[0] == '-')),
            body == all@.skip(from as int),
            body == if from == 1 {
                s@.drop_first()
            } else {
                s@
            },
            0 <= value <= 0x8000_0000,
            value == digits_value(body.take(i - from)),
            forall|j: int| 0 <= j < i - from ==> is_digit(#[trigger] body[j]),
    {
        let c = all[i];
        assert(c == body[i - from]);
        if c < '0' || c > '9' {
            assert(!is_digit(body[i - from]));
            return None;
        }
        let d: i64 = c as u32 as i64 - 48;
        assert(body.take(i - from + 1).drop_last() == body.take(i - from));
        value = value * 10 + d;
        assert(value == digits_value(body.take(i - from + 1)));
        if value > 0x8000_0000 {
            proof {
                if all_digits(body) {
                    digits_value_grows(body, i - from + 1);
                }
            }
            return None;
        }
    }
    assert(body.take(body.len() as int) == body);
    let signed: i64 = if minus {
        -value
    } else {
        value
    };
    if signed > 0x7fff_ffff {
        None
    } else {
        Some(signed as i32)
    }
}

/// Whether `a` comes before `b` or is the same, character by character.
pub fn not_after(a: &Vec<char>, b: &Vec<char>) -> (r: bool)
    ensures
        r == at_most(a@, b@),
{
    let mut i: usize = 0;
    assert(a@.skip(0) == a@);
    assert(b@.skip(0) == b@);
    while i < a.len() && i < b.len()
        invariant
            i <= a.len(),
            i <= b.len(),
            at_most(a@.skip(i as int), b@.skip(i as int)) == at_most(a@, b@),
        decreases a.len() - i,
    {
        assert(a@.skip(i as int).drop_first() == a@.skip(i + 1));
        assert(b@.skip(i as int).drop_first() == b@.skip(i + 1));
        if a[i] != b[i] {
            return a[i] < b[i];
        }
        i = i + 1;
    }
    i == a.len()
}

/// The order of texts is total.
pub proof fn at_most_total(a: Seq<char>, b: Seq<char>)
    ensures
        at_most(a, b) || at_most(b, a),
    decreases a.len(),
{
    if a.len() > 0 && b.len() > 0 && a[0] == b[0] {
        at_most_total(a.drop_first(), b.drop_first());
    }
}

/// The order of texts is transitive.
pub proof fn at_most_transitive(a: Seq<char>, b: Seq<char>, c: Seq<char>)
    requires
        at_most(a, b),
        at_most(b, c),
    ensures
        at_most(a, c),
    decreases a.len(),
{
    if a.len() > 0 && b.len() > 0 && c.len() > 0 && a[0] == b[0] && b[0] == c[0] {
        at_most_transitive(a.drop_first(), b.drop_first(), c.drop_first());
    }
}

/// Two texts that come before each other are the same.
pub proof fn at_most_antisymmetric(a: Seq<char>, b: Seq<char>)
    requires
        at_most(a, b),
        at_most(b, a),
    ensures
        a == b,
    decreases a.len(),
{
    if a.len() > 0 && b.len() > 0 {
        at_most_antisymmetric(a.drop_first(), b.drop_first());
        assert(a == seq![a[0]] + a.drop_first());
        assert(b == seq![b[0]] + b.drop_first());
    } else {
        assert(a =~= b);
    }
}

/// The text with each occurrence of a part, from the left on, replaced.
pub open spec fn replaced(s: Seq<char>, part: Seq<char>, by: Seq<char>) -> Seq<char>
    decreases s.len(),
{
    if part.len() == 0 || s.len() < part.len() {
        s
    } else if stands_at(s, part, 0) {
        by + replaced(s.skip(part.len() as int), part, by)
    } else {
        seq![s[0]] + replaced(s.skip(1), part, by)
    }
}

/// Replaces each occurrence of a part.
pub fn replace_part(s: &str, part: &str, by: &str) -> (r: String)
    requires
        part@.len() > 0,
    ensures
        r@ == replaced(s@, part@, by@),
{
    let n: usize = s.unicode_len();
    let m: usize = part.unicode_len();
    let mut at: usize = 0;
    let mut r = String::new();
    assert(s@.skip(0) == s@);
    while at < n
        invariant
            n == s@.len(),
            m == part@.len(),
            m > 0,
            at <= n,
            r@ + replaced(s@.skip(at as int), part@, by@) == replaced(s@, part@, by@),
        decreases n - at,
    {
        let ghost rest = s@.skip(at as int);
        if m <= n - at && same(s.substring_char(at, at + m), part) {
            assert(rest.subrange(0, m as int) == s@.subrange(at as int, at + m));
            assert(rest.skip(m as int) == s@.skip(at + m));
            assert(r@ + (by@ + replaced(s@.skip(at + m), part@, by@)) == (r@ + by@) + replaced(
                s@.skip(at + m),
                part@,
                by@,
            ));
            r.append(by);
            at = at + m;
        } else {
            proof {
                if m <= n - at {
                    assert(rest.subrange(0, m as int) == s@.subrange(at as int, at + m));
                }
                assert(rest.skip(1) == s@.skip(at + 1));
                if rest.len() < m {
                    short_is_kept(rest.skip(1), part@, by@);
                    assert(rest == seq![rest[0]] + rest.skip(1));
                }
            }
            let c = s.get_char(at);
            assert(r@ + (seq![c] + replaced(s@.skip(at + 1), part@, by@)) == r@.push(c) + replaced(
                s@.skip(at + 1),
                part@,
                by@,
            ));
            r.push(c);
            at = at + 1;
        }
    }
    assert(s@.skip(n as int).len() == 0);
    assert(r@ + s@.skip(n as int) == r@);
    r
}

proof fn short_is_kept(s: Seq<char>, part: Seq<char>, by: Seq<char>)
    requires
        s.len() < part.len(),
    ensures
        replaced(s, part, by) == s,
{
}

/// The parts that are not empty.
pub open spec fn filled(parts: Seq<Seq<char>>) -> Seq<Seq<char>> {
    parts.filter(|p: Seq<char>| p.len() > 0)
}

/// The parts that are not empty.
pub fn filled_parts(parts: &Vec<String>) -> (r: Vec<String>)
    ensures
        texts(r@) == filled(texts(parts@)),
{
    let ghost all = texts(parts@);
    let ghost p = |p: Seq<char>| p.len() > 0;
    let mut r: Vec<String> = Vec::new();
    for i in 0..parts.len()
        invariant
            all == texts(parts@),
            p == (|p: Seq<char>| p.len() > 0),
            texts(r@) == all.take(i as int).filter(p),
    {
        broadcast use Seq::lemma_filter_push;

        assert(all.take(i + 1) == all.take(i as int).push(all[i as int]));
        if !parts[i].as_str().is_empty() {
            let ghost before = r@;
            r.push(parts[i].clone());
            assert(texts(r@) == texts(before).push(parts@[i as int]@));
        }
    }
    assert(all.take(all.len() as int) == all);
    r
}

} // verus!
