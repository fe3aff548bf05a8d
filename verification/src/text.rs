//! Text primitives shared by the whole library: character classes, search,
//! trimming, and the decimal forms of integers.
//!
//! A text is modelled by its characters, `Seq<char>`. Classes of ASCII
//! characters are spelled out here; beyond ASCII they are the standard
//! library's Unicode tables, which the specifications only name.

use vstd::prelude::*;

verus! {

/// `String::push` appends one character.
pub assume_specification[ String::push ](s: &mut String, c: char)
    ensures
        final(s)@ == old(s)@.push(c),
;

/// `String::push_str` appends a whole string.
pub assume_specification[ String::push_str ](s: &mut String, t: &str)
    ensures
        final(s)@ == old(s)@ + t@,
;

/// `==` on string slices compares their characters.
pub assume_specification[ <str as PartialEq>::eq ](a: &str, b: &str) -> (r: bool)
    ensures
        r == (a@ == b@),
;

// ---- character classes ----

/// An ASCII decimal digit.
pub open spec fn is_digit(c: char) -> bool {
    '0' <= c <= '9'
}

/// An ASCII letter.
pub open spec fn is_ascii_letter(c: char) -> bool {
    ('a' <= c <= 'z') || ('A' <= c <= 'Z')
}

/// An ASCII letter or digit.
pub open spec fn is_ascii_alnum(c: char) -> bool {
    is_digit(c) || is_ascii_letter(c)
}

/// `c` with an ASCII capital turned into the small letter.
pub open spec fn ascii_lower(c: char) -> char {
    if 'A' <= c <= 'Z' {
        ((c as u8) + 32) as char
    } else {
        c
    }
}

/// `c` with an ASCII small letter turned into the capital.
pub open spec fn ascii_upper(c: char) -> char {
    if 'a' <= c <= 'z' {
        ((c as u8) - 32) as char
    } else {
        c
    }
}

/// `s` with every ASCII capital turned into the small letter.
pub open spec fn ascii_lower_text(s: Seq<char>) -> Seq<char> {
    s.map_values(|c: char| ascii_lower(c))
}

pub open spec fn is_ascii_char(c: char) -> bool {
    (c as u32) < 128
}

/// What `char::is_whitespace` says of a character beyond ASCII.
pub uninterp spec fn wide_whitespace(c: char) -> bool;

/// What `char::is_alphabetic` says of a character beyond ASCII.
pub uninterp spec fn wide_alphabetic(c: char) -> bool;

/// What `char::is_alphanumeric` says of a character beyond ASCII.
pub uninterp spec fn wide_alphanumeric(c: char) -> bool;

/// What `char::is_uppercase` says of a character beyond ASCII.
pub uninterp spec fn wide_uppercase(c: char) -> bool;

/// What `char::to_uppercase` yields for a character beyond ASCII.
pub uninterp spec fn wide_to_uppercase(c: char) -> Seq<char>;

/// What `str::to_lowercase` yields for a text that is not all ASCII.
pub uninterp spec fn wide_to_lowercase(s: Seq<char>) -> Seq<char>;

/// ASCII white space: the blank, and tab through carriage return.
pub open spec fn is_ascii_white(c: char) -> bool {
    c == ' ' || ('\t' <= c <= '\r')
}

/// White space, as `char::is_whitespace` has it.
pub open spec fn is_white(c: char) -> bool {
    if is_ascii_char(c) {
        is_ascii_white(c)
    } else {
        wide_whitespace(c)
    }
}

/// A letter, as `char::is_alphabetic` has it.
pub open spec fn is_letter(c: char) -> bool {
    if is_ascii_char(c) {
        is_ascii_letter(c)
    } else {
        wide_alphabetic(c)
    }
}

/// A letter or a number, as `char::is_alphanumeric` has it.
pub open spec fn is_alnum(c: char) -> bool {
    if is_ascii_char(c) {
        is_ascii_alnum(c)
    } else {
        wide_alphanumeric(c)
    }
}

/// An upper-case letter, as `char::is_uppercase` has it.
pub open spec fn is_upper(c: char) -> bool {
    if is_ascii_char(c) {
        'A' <= c <= 'Z'
    } else {
        wide_uppercase(c)
    }
}

/// The upper-case form of one character, as `char::to_uppercase` has it.
pub open spec fn upper_of(c: char) -> Seq<char> {
    if is_ascii_char(c) {
        seq![ascii_upper(c)]
    } else {
        wide_to_uppercase(c)
    }
}

pub open spec fn all_ascii(s: Seq<char>) -> bool {
    forall|i: int| 0 <= i < s.len() ==> is_ascii_char(#[trigger] s[i])
}

/// The lower-case form of a text, as `str::to_lowercase` has it.
pub open spec fn lower_text(s: Seq<char>) -> Seq<char> {
    if all_ascii(s) {
        ascii_lower_text(s)
    } else {
        wide_to_lowercase(s)
    }
}

/// `char::is_whitespace`: the Unicode property White_Space, which among the
/// ASCII characters holds of the blank and of tab through carriage return.
#[verifier::external_body]
fn char_is_whitespace(c: char) -> (r: bool)
    ensures
        is_ascii_char(c) ==> r == is_ascii_white(c),
        !is_ascii_char(c) ==> r == wide_whitespace(c),
{
    c.is_whitespace()
}

/// `char::is_alphabetic`: the Unicode property Alphabetic, which among the
/// ASCII characters holds of the letters.
#[verifier::external_body]
fn char_is_alphabetic(c: char) -> (r: bool)
    ensures
        is_ascii_char(c) ==> r == is_ascii_letter(c),
        !is_ascii_char(c) ==> r == wide_alphabetic(c),
{
    c.is_alphabetic()
}

/// `char::is_alphanumeric`: alphabetic or numeric, which among the ASCII
/// characters holds of the letters and the digits.
#[verifier::external_body]
fn char_is_alphanumeric(c: char) -> (r: bool)
    ensures
        is_ascii_char(c) ==> r == is_ascii_alnum(c),
        !is_ascii_char(c) ==> r == wide_alphanumeric(c),
{
    c.is_alphanumeric()
}

/// `char::is_uppercase`: the Unicode property Uppercase, which among the
/// ASCII characters holds of the capitals.
#[verifier::external_body]
fn char_is_uppercase(c: char) -> (r: bool)
    ensures
        is_ascii_char(c) ==> r == ('A' <= c <= 'Z'),
        !is_ascii_char(c) ==> r == wide_uppercase(c),
{
    c.is_uppercase()
}

/// `char::to_uppercase`: the full upper-case mapping of one character, which
/// for an ASCII character is its ASCII capital, or itself.
#[verifier::external_body]
fn char_to_uppercase(c: char) -> (r: String)
    ensures
        is_ascii_char(c) ==> r@ == seq![ascii_upper(c)],
        !is_ascii_char(c) ==> r@ == wide_to_uppercase(c),
{
    c.to_uppercase().to_string()
}

/// `str::to_lowercase`: the lower-case equivalent of a text, which for an
/// ASCII text is the same text with its capitals turned into small letters.
#[verifier::external_body]
fn str_to_lowercase(s: &str) -> (r: String)
    ensures
        all_ascii(s@) ==> r@ == ascii_lower_text(s@),
        !all_ascii(s@) ==> r@ == wide_to_lowercase(s@),
{
    s.to_lowercase()
}

/// Whether a character is white space.
pub fn white(c: char) -> (r: bool)
    ensures
        r == is_white(c),
{
    char_is_whitespace(c)
}

/// Whether a character is a letter.
pub fn letter(c: char) -> (r: bool)
    ensures
        r == is_letter(c),
{
    char_is_alphabetic(c)
}

/// Whether a character is a letter or a number.
pub fn alnum(c: char) -> (r: bool)
    ensures
        r == is_alnum(c),
{
    char_is_alphanumeric(c)
}

/// Whether a character is a capital letter.
pub fn upper(c: char) -> (r: bool)
    ensures
        r == is_upper(c),
{
    char_is_uppercase(c)
}

/// A character in upper case.
pub fn to_upper(c: char) -> (r: String)
    ensures
        r@ == upper_of(c),
{
    char_to_uppercase(c)
}

/// A text in lower case.
pub fn to_lower(s: &str) -> (r: String)
    ensures
        r@ == lower_text(s@),
{
    str_to_lowercase(s)
}

/// Whether a character is an ASCII digit.
pub fn digit(c: char) -> (r: bool)
    ensures
        r == is_digit(c),
{
    '0' <= c && c <= '9'
}

/// Whether a character is an ASCII letter.
pub fn ascii_letter(c: char) -> (r: bool)
    ensures
        r == is_ascii_letter(c),
{
    ('a' <= c && c <= 'z') || ('A' <= c && c <= 'Z')
}

/// Whether a character is an ASCII letter or digit.
pub fn ascii_alnum(c: char) -> (r: bool)
    ensures
        r == is_ascii_alnum(c),
{
    digit(c) || ascii_letter(c)
}

/// `char::to_ascii_lowercase`.
pub fn lower_char(c: char) -> (r: char)
    ensures
        r == ascii_lower(c),
{
    if 'A' <= c && c <= 'Z' {
        let code: u8 = c as u8;
        (code + 32u8) as char
    } else {
        c
    }
}

// ---- strings and their characters ----

/// The characters of `s`, in order.
pub fn chars_of(s: &str) -> (r: Vec<char>)
    ensures
        r@ == s@,
{
    let mut out: Vec<char> = Vec::new();
    for c in it: s.chars()
        invariant
            out@ == s@.take(it.index() as int),
            it.seq() == s@,
    {
        out.push(c);
        assert(s@.take(it.index() as int + 1) =~= s@.take(it.index() as int).push(c));
    }
    assert(s@.take(s@.len() as int) =~= s@);
    out
}

/// The string made of `v[from..to]`.
pub fn string_of(v: &Vec<char>, from: usize, to: usize) -> (r: String)
    requires
        from <= to <= v@.len(),
    ensures
        r@ == v@.subrange(from as int, to as int),
{
    let mut out = String::new();
    let mut i: usize = from;
    while i < to
        invariant
            from <= i <= to <= v@.len(),
            out@ == v@.subrange(from as int, i as int),
        decreases to - i,
    {
        out.push(v[i]);
        assert(v@.subrange(from as int, i as int + 1) =~= v@.subrange(from as int, i as int).push(
            v@[i as int],
        ));
        i += 1;
    }
    out
}

/// The string made of all of `v`.
pub fn string_of_all(v: &Vec<char>) -> (r: String)
    ensures
        r@ == v@,
{
    let r = string_of(v, 0, v.len());
    assert(v@.subrange(0, v@.len() as int) =~= v@);
    r
}

/// An owned copy of `s`.
pub fn own(s: &str) -> (r: String)
    ensures
        r@ == s@,
{
    s.to_owned()
}

/// `str::to_ascii_lowercase`.
pub fn to_ascii_lower(s: &str) -> (r: String)
    ensures
        r@ == ascii_lower_text(s@),
{
    let v = chars_of(s);
    let mut out = String::new();
    let mut i: usize = 0;
    while i < v.len()
        invariant
            v@ == s@,
            i <= v@.len(),
            out@ == ascii_lower_text(s@.take(i as int)),
        decreases v@.len() - i,
    {
        out.push(lower_char(v[i]));
        assert(ascii_lower_text(s@.take(i as int + 1)) =~= ascii_lower_text(s@.take(i as int)).push(
            ascii_lower(s@[i as int]),
        ));
        i += 1;
    }
    assert(s@.take(i as int) =~= s@);
    out
}

/// Whether the two texts are equal up to the case of ASCII letters.
pub fn eq_ignore_ascii_case(a: &str, b: &str) -> (r: bool)
    ensures
        r == (ascii_lower_text(a@) == ascii_lower_text(b@)),
{
    to_ascii_lower(a) == to_ascii_lower(b)
}

// ---- search ----

/// `needle` stands in `hay` at index `i`.
pub open spec fn occurs_at(hay: Seq<char>, needle: Seq<char>, i: int) -> bool {
    0 <= i && i + needle.len() <= hay.len() && hay.subrange(i, i + needle.len() as int) == needle
}

/// `needle` stands somewhere in `hay`.
pub open spec fn has_text(hay: Seq<char>, needle: Seq<char>) -> bool {
    exists|i: int| occurs_at(hay, needle, i)
}

pub open spec fn begins_with(s: Seq<char>, prefix: Seq<char>) -> bool {
    prefix.is_prefix_of(s)
}

pub open spec fn finishes_with(s: Seq<char>, suffix: Seq<char>) -> bool {
    suffix.is_suffix_of(s)
}

/// Whether `needle` stands in `hay` at index `i`.
pub fn matches_at(hay: &Vec<char>, needle: &Vec<char>, i: usize) -> (r: bool)
    ensures
        r == occurs_at(hay@, needle@, i as int),
{
    if needle.len() > hay.len() || i > hay.len() - needle.len() {
        return false;
    }
    let total: usize = hay.len();
    let mut k: usize = 0;
    while k < needle.len()
        invariant
            k <= needle@.len(),
            total == hay@.len(),
            i + needle@.len() <= total,
            hay@.subrange(i as int, i + k) == needle@.take(k as int),
        decreases needle@.len() - k,
    {
        if hay[i + k] != needle[k] {
            proof {
                let w = hay@.subrange(i as int, i + needle@.len());
                assert(w[k as int] != needle@[k as int]);
            }
            return false;
        }
        assert(hay@.subrange(i as int, i + k + 1) =~= hay@.subrange(i as int, i + k).push(
            hay@[i + k],
        ));
        assert(needle@.take(k + 1) =~= needle@.take(k as int).push(needle@[k as int]));
        k += 1;
    }
    assert(needle@.take(k as int) =~= needle@);
    true
}

/// The first index at or after `from` where `needle` stands in `hay`.
pub fn find_from(hay: &Vec<char>, needle: &Vec<char>, from: usize) -> (r: Option<usize>)
    ensures
        match r {
            Some(i) => {
                &&& from <= i
                &&& occurs_at(hay@, needle@, i as int)
                &&& forall|j: int| from <= j < i ==> !occurs_at(hay@, needle@, j)
            },
            None => forall|j: int| from <= j ==> !occurs_at(hay@, needle@, j),
        },
{
    if needle.len() > hay.len() {
        return None;
    }
    let last: usize = hay.len() - needle.len();
    let mut i: usize = from;
    while i <= last
        invariant
            from <= i,
            last == hay@.len() - needle@.len(),
            forall|j: int| from <= j < i ==> !occurs_at(hay@, needle@, j),
        decreases last + 1 - i,
    {
        if matches_at(hay, needle, i) {
            return Some(i);
        }
        if i == last {
            return None;
        }
        i += 1;
    }
    None
}

/// The first index at or after `from` where `needle` stands in `hay`.
pub open spec fn find_text(hay: Seq<char>, needle: Seq<char>, from: int) -> Option<int>
    decreases hay.len() + 1 - from,
{
    if from < 0 || from + needle.len() > hay.len() {
        None
    } else if occurs_at(hay, needle, from) {
        Some(from)
    } else {
        find_text(hay, needle, from + 1)
    }
}

proof fn find_text_skips(hay: Seq<char>, needle: Seq<char>, from: int, i: int)
    requires
        0 <= from <= i,
        forall|j: int| from <= j < i ==> !occurs_at(hay, needle, j),
    ensures
        i + needle.len() <= hay.len() ==> find_text(hay, needle, from) == find_text(
            hay,
            needle,
            i,
        ),
        i + needle.len() > hay.len() ==> find_text(hay, needle, from) is None,
    decreases i - from,
{
    if from < i {
        assert(!occurs_at(hay, needle, from));
        find_text_skips(hay, needle, from + 1, i);
    }
}

/// `str::find` of a string, over characters.
pub fn find(hay: &Vec<char>, needle: &Vec<char>, from: usize) -> (r: Option<usize>)
    ensures
        match r {
            Some(i) => find_text(hay@, needle@, from as int) == Some(i as int),
            None => find_text(hay@, needle@, from as int) is None,
        },
        r matches Some(i) ==> from <= i && i + needle@.len() <= hay@.len(),
{
    let r = find_from(hay, needle, from);
    proof {
        match r {
            Some(i) => {
                find_text_skips(hay@, needle@, from as int, i as int);
            },
            None => {
                let past = if from <= hay@.len() {
                    hay@.len() + 1int
                } else {
                    from as int
                };
                find_text_skips(hay@, needle@, from as int, past);
            },
        }
    }
    r
}

/// `str::contains` of a string.
pub fn contains(hay: &str, needle: &str) -> (r: bool)
    ensures
        r == has_text(hay@, needle@),
{
    let h = chars_of(hay);
    let n = chars_of(needle);
    match find_from(&h, &n, 0) {
        Some(i) => {
            assert(occurs_at(hay@, needle@, i as int));
            true
        },
        None => {
            assert forall|j: int| !occurs_at(hay@, needle@, j) by {}
            false
        },
    }
}

/// `str::starts_with`.
pub fn starts_with(s: &str, prefix: &str) -> (r: bool)
    ensures
        r == begins_with(s@, prefix@),
{
    let v = chars_of(s);
    let p = chars_of(prefix);
    matches_at(&v, &p, 0)
}

/// `str::ends_with`.
pub fn ends_with(s: &str, suffix: &str) -> (r: bool)
    ensures
        r == finishes_with(s@, suffix@),
{
    let v = chars_of(s);
    let p = chars_of(suffix);
    if p.len() > v.len() {
        return false;
    }
    let r = matches_at(&v, &p, v.len() - p.len());
    r
}

/// `str::strip_prefix`.
pub fn strip_prefix(s: &str, prefix: &str) -> (r: Option<String>)
    ensures
        r is Some == begins_with(s@, prefix@),
        r matches Some(t) ==> t@ == s@.skip(prefix@.len() as int),
{
    if starts_with(s, prefix) {
        let v = chars_of(s);
        let p = chars_of(prefix);
        let t = string_of(&v, p.len(), v.len());
        assert(t@ =~= s@.skip(prefix@.len() as int));
        Some(t)
    } else {
        None
    }
}

/// `str::strip_suffix`.
pub fn strip_suffix(s: &str, suffix: &str) -> (r: Option<String>)
    ensures
        r is Some == finishes_with(s@, suffix@),
        r matches Some(t) ==> t@ == s@.take(s@.len() - suffix@.len()),
{
    if ends_with(s, suffix) {
        let v = chars_of(s);
        let p = chars_of(suffix);
        let t = string_of(&v, 0, v.len() - p.len());
        assert(t@ =~= s@.take(s@.len() - suffix@.len()));
        Some(t)
    } else {
        None
    }
}

/// `s` holds the character `c`.
pub fn has_char(s: &str, c: char) -> (r: bool)
    ensures
        r == s@.contains(c),
{
    let v = chars_of(s);
    let mut i: usize = 0;
    while i < v.len()
        invariant
            v@ == s@,
            i <= v@.len(),
            forall|j: int| 0 <= j < i ==> s@[j] != c,
        decreases v@.len() - i,
    {
        if v[i] == c {
            assert(s@[i as int] == c);
            return true;
        }
        i += 1;
    }
    false
}

/// `s` with every `from` replaced by `to`.
pub open spec fn replaced(s: Seq<char>, from: char, to: char) -> Seq<char> {
    s.map_values(|c: char| if c == from { to } else { c })
}

/// `str::replace` of one character by another.
pub fn replace_char(s: &str, from: char, to: char) -> (r: String)
    ensures
        r@ == replaced(s@, from, to),
{
    let v = chars_of(s);
    let mut out = String::new();
    let mut i: usize = 0;
    while i < v.len()
        invariant
            v@ == s@,
            i <= v@.len(),
            out@ == replaced(s@.take(i as int), from, to),
        decreases v@.len() - i,
    {
        let c = v[i];
        let d = if c == from { to } else { c };
        out.push(d);
        assert(replaced(s@.take(i as int + 1), from, to) =~= replaced(
            s@.take(i as int),
            from,
            to,
        ).push(d));
        i += 1;
    }
    assert(s@.take(i as int) =~= s@);
    out
}

// ---- splitting ----

/// The index of the first `c` in `s`; the length of `s` if there is none.
pub open spec fn first_index(s: Seq<char>, c: char) -> int
    decreases s.len(),
{
    if s.len() == 0 {
        0
    } else if s[0] == c {
        0
    } else {
        1 + first_index(s.skip(1), c)
    }
}

/// Where a character stands first, or the length where it does not.
pub fn find_char(v: &Vec<char>, c: char) -> (r: usize)
    ensures
        r == first_index(v@, c),
        r <= v@.len(),
{
    let mut i: usize = 0;
    assert(v@.skip(0) =~= v@);
    while i < v.len() && v[i] != c
        invariant
            i <= v@.len(),
            first_index(v@, c) == i + first_index(v@.skip(i as int), c),
        decreases v@.len() - i,
    {
        assert(v@.skip(i as int).skip(1) =~= v@.skip(i + 1));
        i += 1;
    }
    i
}

/// The parts of `s` between the characters `c`.
pub open spec fn pieces(s: Seq<char>, c: char) -> Seq<Seq<char>>
    decreases s.len(),
{
    let i = first_index(s, c);
    if 0 <= i < s.len() {
        seq![s.take(i)] + pieces(s.skip(i + 1), c)
    } else {
        seq![s]
    }
}

/// The texts of `parts` with `c` between them.
pub open spec fn joined(parts: Seq<Seq<char>>, c: char) -> Seq<char>
    decreases parts.len(),
{
    if parts.len() == 0 {
        Seq::empty()
    } else if parts.len() == 1 {
        parts[0]
    } else {
        parts[0] + seq![c] + joined(parts.skip(1), c)
    }
}

/// The parts of a text, with the separator between them again, are the text; no part has
/// the separator in it.
pub proof fn pieces_join(s: Seq<char>, c: char)
    ensures
        joined(pieces(s, c), c) == s,
        pieces(s, c).len() > 0,
        forall|i: int, k: int|
            0 <= i < pieces(s, c).len() && 0 <= k < pieces(s, c)[i].len() ==> #[trigger] pieces(
                s,
                c,
            )[i][k] != c,
    decreases s.len(),
{
    let i = first_index(s, c);
    first_index_found(s, c);
    let p = pieces(s, c);
    if 0 <= i < s.len() {
        pieces_join(s.skip(i + 1), c);
        let rest = pieces(s.skip(i + 1), c);
        assert(p.skip(1) =~= rest);
        assert(p.len() >= 2);
        assert(s =~= s.take(i) + seq![c] + s.skip(i + 1));
        assert forall|a: int, k: int| 0 <= a < p.len() && 0 <= k < p[a].len() implies #[trigger] p[a][k]
            != c by {
            if a == 0 {
                assert(p[0][k] == s[k]);
            } else {
                assert(p[a] == rest[a - 1]);
                assert(rest[a - 1][k] != c);
            }
        }
    }
}

/// Texts without the separator are got back from what they are joined to.
pub proof fn joined_splits(parts: Seq<Seq<char>>, c: char)
    requires
        parts.len() > 0,
        forall|i: int, k: int|
            0 <= i < parts.len() && 0 <= k < parts[i].len() ==> #[trigger] parts[i][k] != c,
    ensures
        pieces(joined(parts, c), c) == parts,
    decreases parts.len(),
{
    let s = joined(parts, c);
    if parts.len() == 1 {
        assert forall|j: int| 0 <= j < s.len() implies s[j] != c by {
            assert(parts[0][j] != c);
        }
        first_index_is(s, c, s.len() as int);
        assert(pieces(s, c) =~= parts);
    } else {
        let rest = parts.skip(1);
        assert forall|i: int, k: int|
            0 <= i < rest.len() && 0 <= k < rest[i].len() implies #[trigger] rest[i][k] != c by {
            assert(parts[i + 1][k] != c);
        }
        joined_splits(rest, c);
        let n = parts[0].len() as int;
        assert forall|j: int| 0 <= j < n implies s[j] != c by {
            assert(parts[0][j] != c);
        }
        assert(s[n] == c);
        first_index_is(s, c, n);
        assert(s.take(n) =~= parts[0]);
        assert(s.skip(n + 1) =~= joined(rest, c));
        assert(pieces(s, c) =~= parts);
    }
}

proof fn first_index_found(s: Seq<char>, c: char)
    ensures
        0 <= first_index(s, c) <= s.len(),
        first_index(s, c) < s.len() ==> s[first_index(s, c)] == c,
        forall|j: int| 0 <= j < first_index(s, c) ==> s[j] != c,
    decreases s.len(),
{
    if s.len() > 0 && s[0] != c {
        first_index_found(s.skip(1), c);
        assert forall|j: int| 0 <= j < first_index(s, c) implies s[j] != c by {
            if j > 0 {
                assert(s.skip(1)[j - 1] == s[j]);
            }
        }
    }
}

/// `str::split` at a character.
pub fn split(s: &str, c: char) -> (r: Vec<String>)
    ensures
        crate::types::texts(r@) == pieces(s@, c),
        r@.len() >= 1,
{
    let v = chars_of(s);
    let mut out: Vec<String> = Vec::new();
    let mut from: usize = 0;
    let mut i: usize = 0;
    assert(s@.skip(0) =~= s@);
    while i < v.len()
        invariant
            v@ == s@,
            from <= i <= v@.len(),
            forall|j: int| from <= j < i ==> v@[j] != c,
            crate::types::texts(out@) + pieces(s@.skip(from as int), c) =~= pieces(s@, c),
        decreases v@.len() - i,
    {
        if v[i] == c {
            let part = string_of(&v, from, i);
            proof {
                let t = s@.skip(from as int);
                first_index_is(t, c, i - from);
                assert(t.take(i - from) =~= part@);
                assert(t.skip(i - from + 1) =~= s@.skip(i + 1));
            }
            crate::types::push_text(&mut out, part.as_str());
            from = i + 1;
        }
        i += 1;
    }
    let last = string_of(&v, from, v.len());
    proof {
        let t = s@.skip(from as int);
        first_index_is(t, c, t.len() as int);
        assert(t =~= last@);
    }
    crate::types::push_text(&mut out, last.as_str());
    assert(crate::types::texts(out@) =~= pieces(s@, c));
    out
}

/// Where a character first occurs.
pub proof fn first_index_is(s: Seq<char>, c: char, i: int)
    requires
        0 <= i <= s.len(),
        i < s.len() ==> s[i] == c,
        forall|j: int| 0 <= j < i ==> s[j] != c,
    ensures
        first_index(s, c) == i,
    decreases s.len(),
{
    if s.len() > 0 && s[0] != c {
        assert forall|j: int| 0 <= j < i - 1 implies s.skip(1)[j] != c by {
            assert(s.skip(1)[j] == s[j + 1]);
        }
        first_index_is(s.skip(1), c, i - 1);
    }
}

// ---- trimming ----

/// `s` without its leading white space.
pub open spec fn trim_left(s: Seq<char>) -> Seq<char>
    decreases s.len(),
{
    if s.len() > 0 && is_white(s[0]) {
        trim_left(s.skip(1))
    } else {
        s
    }
}

/// `s` without its trailing white space.
pub open spec fn trim_right(s: Seq<char>) -> Seq<char>
    decreases s.len(),
{
    if s.len() > 0 && is_white(s.last()) {
        trim_right(s.drop_last())
    } else {
        s
    }
}

/// `s` without leading and trailing white space.
pub open spec fn trimmed(s: Seq<char>) -> Seq<char> {
    trim_right(trim_left(s))
}

/// `str::trim`.
pub fn trim(s: &str) -> (r: String)
    ensures
        r@ == trimmed(s@),
{
    let v = chars_of(s);
    let n: usize = v.len();
    let mut a: usize = 0;
    assert(s@.skip(0) =~= s@);
    while a < n && white(v[a])
        invariant
            v@ == s@,
            n == v@.len(),
            a <= n,
            trim_left(s@) == trim_left(s@.skip(a as int)),
        decreases n - a,
    {
        assert(s@.skip(a as int).skip(1) =~= s@.skip(a as int + 1));
        a += 1;
    }
    assert(trim_left(s@) == s@.skip(a as int));
    let ghost left = s@.skip(a as int);
    let mut b: usize = n;
    assert(left.take(b - a) =~= left);
    while b > a && white(v[b - 1])
        invariant
            v@ == s@,
            n == v@.len(),
            a <= b <= n,
            left == s@.skip(a as int),
            trim_right(left) == trim_right(left.take(b - a)),
        decreases b,
    {
        assert(left.take(b - a).drop_last() =~= left.take(b - a - 1));
        assert(left.take(b - a).last() == v@[b - 1]);
        b -= 1;
    }
    assert(left.take(b - a) =~= s@.subrange(a as int, b as int));
    assert(b > a ==> left.take(b - a).last() == v@[b - 1]);
    string_of(&v, a, b)
}

/// The text is nothing but white space.
pub open spec fn is_blank(s: Seq<char>) -> bool {
    forall|i: int| 0 <= i < s.len() ==> is_white(#[trigger] s[i])
}

/// `s.trim().is_empty()`.
pub fn blank(s: &str) -> (r: bool)
    ensures
        r == is_blank(s@),
{
    let v = chars_of(s);
    let mut i: usize = 0;
    while i < v.len()
        invariant
            v@ == s@,
            i <= v@.len(),
            forall|j: int| 0 <= j < i ==> is_white(#[trigger] s@[j]),
        decreases v@.len() - i,
    {
        if !white(v[i]) {
            assert(!is_white(s@[i as int]));
            return false;
        }
        i += 1;
    }
    true
}

/// A text is blank exactly when trimming leaves nothing.
pub proof fn blank_iff_trimmed_empty(s: Seq<char>)
    ensures
        is_blank(s) <==> trimmed(s).len() == 0,
    decreases s.len(),
{
    if s.len() > 0 && is_white(s[0]) {
        blank_iff_trimmed_empty(s.skip(1));
        if is_blank(s.skip(1)) {
            assert forall|i: int| 0 <= i < s.len() implies is_white(#[trigger] s[i]) by {
                if i > 0 {
                    assert(s.skip(1)[i - 1] == s[i]);
                }
            }
        }
        if is_blank(s) {
            assert forall|i: int| 0 <= i < s.skip(1).len() implies is_white(
                #[trigger] s.skip(1)[i],
            ) by {
                assert(s[i + 1] == s.skip(1)[i]);
            }
        }
    } else if s.len() > 0 {
        trim_right_keeps_first(s);
    }
}

proof fn trim_right_keeps_first(s: Seq<char>)
    requires
        s.len() > 0,
        !is_white(s[0]),
    ensures
        trim_right(s).len() > 0,
        trim_right(s)[0] == s[0],
    decreases s.len(),
{
    if is_white(s.last()) {
        trim_right_keeps_first(s.drop_last());
    }
}

// ---- decimal numbers ----

/// The decimal digit for `d`.
pub open spec fn digit_char(d: int) -> char {
    (48 + d) as char
}

/// The value of a decimal digit.
pub open spec fn digit_value(c: char) -> int {
    c as int - 48
}

/// `n` in decimal, without leading zeros.
pub open spec fn decimal(n: nat) -> Seq<char>
    decreases n,
{
    if n < 10 {
        seq![digit_char(n as int)]
    } else {
        decimal(n / 10).push(digit_char((n % 10) as int))
    }
}

/// `n` in decimal, with a minus sign where it is negative.
pub open spec fn decimal_int(n: int) -> Seq<char> {
    if n < 0 {
        seq!['-'] + decimal((-n) as nat)
    } else {
        decimal(n as nat)
    }
}

/// `n` zeros.
pub open spec fn zeros(n: nat) -> Seq<char> {
    Seq::new(n, |i: int| '0')
}

/// `s` with zeros before it up to the width `w`.
pub open spec fn zero_padded(s: Seq<char>, w: nat) -> Seq<char> {
    if s.len() < w {
        zeros((w - s.len()) as nat) + s
    } else {
        s
    }
}

/// `n` in decimal over at least `w` places, the sign counted, padded with zeros.
pub open spec fn padded_int(n: int, w: nat) -> Seq<char> {
    if n < 0 {
        seq!['-'] + zero_padded(
            decimal((-n) as nat),
            if w > 0 {
                (w - 1) as nat
            } else {
                0
            },
        )
    } else {
        zero_padded(decimal(n as nat), w)
    }
}

fn push_digit(out: &mut String, d: u64)
    requires
        d < 10,
    ensures
        final(out)@ == old(out)@.push(digit_char(d as int)),
{
    let code: u8 = 48u8 + (d as u8);
    out.push(code as char);
}

/// Appends `n` in decimal.
pub fn push_u64(out: &mut String, n: u64)
    ensures
        final(out)@ == old(out)@ + decimal(n as nat),
    decreases n,
{
    if n >= 10 {
        push_u64(out, n / 10);
    }
    push_digit(out, n % 10);
    assert(out@ =~= old(out)@ + decimal(n as nat));
}

/// The absolute value of `n`.
pub fn magnitude(n: i64) -> (r: u64)
    ensures
        n < 0 ==> r == -n,
        n >= 0 ==> r == n,
{
    if n < 0 {
        let m: i64 = -(n + 1);
        m as u64 + 1
    } else {
        n as u64
    }
}

/// Appends `n` in decimal, signed.
pub fn push_i64(out: &mut String, n: i64)
    ensures
        final(out)@ == old(out)@ + decimal_int(n as int),
{
    if n < 0 {
        out.push('-');
    }
    let m: u64 = magnitude(n);
    push_u64(out, m);
    assert(out@ =~= old(out)@ + decimal_int(n as int));
}

/// Appends `n` in decimal, padded with zeros to `width` places.
pub fn push_u64_padded(out: &mut String, n: u64, width: usize)
    ensures
        final(out)@ == old(out)@ + zero_padded(decimal(n as nat), width as nat),
{
    let mut digits = String::new();
    push_u64(&mut digits, n);
    assert(digits@ =~= decimal(n as nat));
    let v = chars_of(digits.as_str());
    let mut k: usize = v.len();
    while k < width
        invariant
            v@ == decimal(n as nat),
            v@.len() <= k,
            k <= width || k == v@.len(),
            out@ == old(out)@ + zeros((k - v@.len()) as nat),
        decreases width - k,
    {
        out.push('0');
        assert(zeros((k + 1 - v@.len()) as nat) =~= zeros((k - v@.len()) as nat).push('0'));
        assert(out@ =~= old(out)@ + zeros((k + 1 - v@.len()) as nat));
        k += 1;
    }
    out.push_str(digits.as_str());
    assert(out@ =~= old(out)@ + zero_padded(decimal(n as nat), width as nat));
}

/// Appends `n` in decimal over at least `width` places, padded with zeros.
pub fn push_i64_padded(out: &mut String, n: i64, width: usize)
    ensures
        final(out)@ == old(out)@ + padded_int(n as int, width as nat),
{
    let m: u64 = magnitude(n);
    if n < 0 {
        out.push('-');
        let w: usize = if width > 0 { width - 1 } else { 0 };
        push_u64_padded(out, m, w);
    } else {
        push_u64_padded(out, m, width);
    }
    assert(out@ =~= old(out)@ + padded_int(n as int, width as nat));
}

/// A number in decimal digits.
pub fn u64_text(n: u64) -> (r: String)
    ensures
        r@ == decimal(n as nat),
{
    let mut out = String::new();
    push_u64(&mut out, n);
    assert(out@ =~= decimal(n as nat));
    out
}

/// A number in decimal digits, with a sign where it is negative.
pub fn i64_text(n: i64) -> (r: String)
    ensures
        r@ == decimal_int(n as int),
{
    let mut out = String::new();
    push_i64(&mut out, n);
    assert(out@ =~= decimal_int(n as int));
    out
}

pub open spec fn all_digits(s: Seq<char>) -> bool {
    forall|i: int| 0 <= i < s.len() ==> is_digit(#[trigger] s[i])
}

/// The number that a run of digits spells.
pub open spec fn digits_value(s: Seq<char>) -> nat
    decreases s.len(),
{
    if s.len() == 0 {
        0
    } else {
        digits_value(s.drop_last()) * 10 + digit_value(s.last()) as nat
    }
}

/// A digit run only grows in value as digits are appended.
pub proof fn digits_value_monotonic(s: Seq<char>, k: int)
    requires
        0 <= k <= s.len(),
        all_digits(s),
    ensures
        digits_value(s.take(k)) <= digits_value(s),
    decreases s.len(),
{
    if k == s.len() {
        assert(s.take(k) =~= s);
    } else {
        assert(s.drop_last().take(k) =~= s.take(k));
        assert(all_digits(s.drop_last())) by {
            assert forall|i: int| 0 <= i < s.drop_last().len() implies is_digit(
                #[trigger] s.drop_last()[i],
            ) by {
                assert(s[i] == s.drop_last()[i]);
            }
        }
        digits_value_monotonic(s.drop_last(), k);
        assert(is_digit(s.last()));
    }
}

/// The number that a digit run spells, if it is one that `max` allows.
pub open spec fn digits_upto(s: Seq<char>, max: int) -> Option<int> {
    if s.len() > 0 && all_digits(s) && digits_value(s) <= max {
        Some(digits_value(s) as int)
    } else {
        None
    }
}

/// Reads `v[from..to]` as a run of digits that spells at most `max`.
pub fn parse_digits(v: &Vec<char>, from: usize, to: usize, max: u64) -> (r: Option<u64>)
    requires
        from <= to <= v@.len(),
    ensures
        match r {
            Some(n) => digits_upto(v@.subrange(from as int, to as int), max as int) == Some(
                n as int,
            ),
            None => digits_upto(v@.subrange(from as int, to as int), max as int) is None,
        },
{
    let ghost s = v@.subrange(from as int, to as int);
    if from == to {
        return None;
    }
    let mut n: u64 = 0;
    let mut i: usize = from;
    while i < to
        invariant
            from <= i <= to <= v@.len(),
            s == v@.subrange(from as int, to as int),
            n <= max,
            n == digits_value(s.take(i - from)),
            forall|j: int| 0 <= j < i - from ==> is_digit(#[trigger] s[j]),
        decreases to - i,
    {
        let c = v[i];
        assert(s[i - from] == c);
        if !digit(c) {
            return None;
        }
        let d: u64 = (c as u32 - 48) as u64;
        proof {
            assert(s.take(i + 1 - from).drop_last() =~= s.take(i - from));
            assert(s.take(i + 1 - from).last() == c);
        }
        if d > max || n > (max - d) / 10 {
            proof {
                if all_digits(s) {
                    digits_value_monotonic(s, i + 1 - from);
                }
            }
            return None;
        }
        n = n * 10 + d;
        i += 1;
    }
    assert(s.take(i - from) =~= s);
    Some(n)
}

/// `s` without one leading plus sign.
pub open spec fn without_plus(s: Seq<char>) -> Seq<char> {
    if s.len() > 0 && s[0] == '+' {
        s.skip(1)
    } else {
        s
    }
}

/// What an unsigned integer type whose greatest value is `max` reads in `s`: an
/// optional plus sign, then digits, of a number that fits.
pub open spec fn unsigned_value(s: Seq<char>, max: int) -> Option<int> {
    digits_upto(without_plus(s), max)
}

/// What `i64` reads in `s`: an optional sign, then digits, of a number that fits.
pub open spec fn signed_value(s: Seq<char>) -> Option<int> {
    if s.len() > 0 && s[0] == '-' {
        match digits_upto(s.skip(1), -(i64::MIN as int)) {
            Some(n) => Some(-n),
            None => None,
        }
    } else {
        digits_upto(without_plus(s), i64::MAX as int)
    }
}

fn parse_unsigned(s: &str, max: u64) -> (r: Option<u64>)
    ensures
        match r {
            Some(n) => unsigned_value(s@, max as int) == Some(n as int),
            None => unsigned_value(s@, max as int) is None,
        },
        r matches Some(n) ==> n <= max,
{
    let v = chars_of(s);
    if v.len() > 0 && v[0] == '+' {
        assert(v@.skip(1) =~= v@.subrange(1, v@.len() as int));
        parse_digits(&v, 1, v.len(), max)
    } else {
        assert(v@.subrange(0, v@.len() as int) =~= v@);
        parse_digits(&v, 0, v.len(), max)
    }
}

/// `s.parse::<u32>().ok()`.
pub fn parse_u32(s: &str) -> (r: Option<u32>)
    ensures
        match r {
            Some(n) => unsigned_value(s@, u32::MAX as int) == Some(n as int),
            None => unsigned_value(s@, u32::MAX as int) is None,
        },
{
    match parse_unsigned(s, u32::MAX as u64) {
        Some(n) => Some(n as u32),
        None => None,
    }
}

/// `s.parse::<u64>().ok()`.
pub fn parse_u64(s: &str) -> (r: Option<u64>)
    ensures
        match r {
            Some(n) => unsigned_value(s@, u64::MAX as int) == Some(n as int),
            None => unsigned_value(s@, u64::MAX as int) is None,
        },
{
    parse_unsigned(s, u64::MAX)
}

/// `s.parse::<i64>().ok()`.
pub fn parse_i64(s: &str) -> (r: Option<i64>)
    ensures
        match r {
            Some(n) => signed_value(s@) == Some(n as int),
            None => signed_value(s@) is None,
        },
{
    let v = chars_of(s);
    if v.len() > 0 && v[0] == '-' {
        assert(v@.skip(1) =~= v@.subrange(1, v@.len() as int));
        match parse_digits(&v, 1, v.len(), 9223372036854775808u64) {
            Some(n) => {
                if n == 9223372036854775808u64 {
                    Some(i64::MIN)
                } else {
                    Some(-(n as i64))
                }
            },
            None => None,
        }
    } else {
        match parse_unsigned(s, i64::MAX as u64) {
            Some(n) => Some(n as i64),
            None => None,
        }
    }
}

/// Reading back the decimal form of a number gives the number.
pub proof fn decimal_roundtrip(n: nat)
    ensures
        all_digits(decimal(n)),
        decimal(n).len() > 0,
        digits_value(decimal(n)) == n,
    decreases n,
{
    if n >= 10 {
        decimal_roundtrip(n / 10);
        assert(decimal(n).drop_last() =~= decimal(n / 10));
    } else {
        let s = decimal(n);
        assert(s.drop_last() =~= Seq::<char>::empty());
        assert(digits_value(Seq::<char>::empty()) == 0);
    }
}

/// Two numbers with the same decimal form are equal.
pub proof fn decimal_injective(a: nat, b: nat)
    requires
        decimal(a) == decimal(b),
    ensures
        a == b,
{
    decimal_roundtrip(a);
    decimal_roundtrip(b);
}

/// Leading zeros do not change the number that a digit run spells.
pub proof fn zeros_keep_value(k: nat, s: Seq<char>)
    requires
        all_digits(s),
    ensures
        all_digits(zeros(k) + s),
        digits_value(zeros(k) + s) == digits_value(s),
    decreases s.len() + k,
{
    let t = zeros(k) + s;
    assert forall|i: int| 0 <= i < t.len() implies is_digit(#[trigger] t[i]) by {
        if i >= k {
            assert(t[i] == s[i - k]);
        }
    }
    if s.len() > 0 {
        assert(t.drop_last() =~= zeros(k) + s.drop_last());
        assert(all_digits(s.drop_last())) by {
            assert forall|i: int| 0 <= i < s.drop_last().len() implies is_digit(
                #[trigger] s.drop_last()[i],
            ) by {
                assert(s[i] == s.drop_last()[i]);
            }
        }
        zeros_keep_value(k, s.drop_last());
    } else if k > 0 {
        assert(t.drop_last() =~= zeros((k - 1) as nat) + s);
        zeros_keep_value((k - 1) as nat, s);
        assert(t.last() == '0');
    } else {
        assert(t =~= s);
    }
}

/// A text is split in one way only at the first occurrence of a character.
pub proof fn split_unique(x1: Seq<char>, y1: Seq<char>, x2: Seq<char>, y2: Seq<char>, c: char)
    requires
        x1.push(c) + y1 == x2.push(c) + y2,
        !x1.contains(c),
        !x2.contains(c),
    ensures
        x1 == x2,
        y1 == y2,
{
    let s = x1.push(c) + y1;
    if x1.len() < x2.len() {
        assert(s[x1.len() as int] == c);
        assert(s[x1.len() as int] == x2[x1.len() as int]);
    } else if x2.len() < x1.len() {
        assert((x2.push(c) + y2)[x2.len() as int] == c);
        assert(s[x2.len() as int] == x1[x2.len() as int]);
    } else {
        assert forall|i: int| 0 <= i < x1.len() implies x1[i] == x2[i] by {
            assert(s[i] == x1[i]);
            assert((x2.push(c) + y2)[i] == x2[i]);
        }
        assert(x1 =~= x2);
        assert((x2.push(c) + y2).len() == s.len());
        assert(y1.len() == y2.len());
        assert forall|i: int| 0 <= i < y1.len() implies y1[i] == y2[i] by {
            assert(s[x1.len() + 1 + i] == y1[i]);
            assert((x2.push(c) + y2)[x1.len() + 1 + i] == y2[i]);
        }
        assert(y1 =~= y2);
    }
}

/// The decimal form of an integer holds digits and at most a leading minus sign.
pub proof fn decimal_int_chars(n: int)
    ensures
        decimal_int(n).len() > 0,
        forall|i: int| 0 <= i < decimal_int(n).len() ==> is_digit(#[trigger] decimal_int(n)[i]) || (i
            == 0 && n < 0 && decimal_int(n)[i] == '-'),
        n >= 0 ==> is_digit(decimal_int(n)[0]),
        n < 0 ==> decimal_int(n)[0] == '-' && decimal_int(n).skip(1) == decimal((-n) as nat),
{
    if n < 0 {
        decimal_roundtrip((-n) as nat);
        assert(decimal_int(n).skip(1) =~= decimal((-n) as nat));
    } else {
        decimal_roundtrip(n as nat);
    }
}

/// Two integers with the same decimal form are equal.
pub proof fn decimal_int_injective(a: int, b: int)
    requires
        decimal_int(a) == decimal_int(b),
    ensures
        a == b,
{
    decimal_int_chars(a);
    decimal_int_chars(b);
    if a < 0 {
        decimal_injective((-a) as nat, (-b) as nat);
    } else {
        decimal_injective(a as nat, b as nat);
    }
}

// ---- lines ----

/// `s` without a carriage return at its end.
pub open spec fn without_cr(s: Seq<char>) -> Seq<char> {
    if s.len() > 0 && s.last() == '\r' {
        s.drop_last()
    } else {
        s
    }
}

/// The lines of a text. What stands behind the last line feed is a line too, unless it is
/// empty.
pub open spec fn text_lines(s: Seq<char>) -> Seq<Seq<char>>
    decreases s.len(),
{
    let i = first_index(s, '\n');
    if s.len() == 0 {
        Seq::empty()
    } else if i < 0 || i >= s.len() {
        seq![s]
    } else {
        seq![without_cr(s.take(i))] + text_lines(s.skip(i + 1))
    }
}

/// `str::lines`.
pub fn lines(s: &str) -> (r: Vec<String>)
    ensures
        crate::types::texts(r@) == text_lines(s@),
{
    let v = chars_of(s);
    let total: usize = v.len();
    let mut out: Vec<String> = Vec::new();
    let mut i: usize = 0;
    assert(v@.skip(0) =~= v@);
    assert(crate::types::texts(out@) + text_lines(v@) =~= text_lines(v@));
    while i < total
        invariant
            i <= total,
            total == v@.len(),
            v@ == s@,
            crate::types::texts(out@) + text_lines(v@.skip(i as int)) == text_lines(s@),
        decreases total - i,
    {
        let ghost rest = v@.skip(i as int);
        let ghost done = crate::types::texts(out@);
        let mut j: usize = i;
        while j < total && v[j] != '\n'
            invariant
                i <= j <= total,
                total == v@.len(),
                rest == v@.skip(i as int),
                forall|k: int| 0 <= k < j - i ==> rest[k] != '\n',
            decreases total - j,
        {
            assert(rest[j - i] == v@[j as int]);
            j += 1;
        }
        proof {
            first_index_is(rest, '\n', j - i);
        }
        if j == total {
            let line = string_of(&v, i, total);
            assert(line@ =~= rest);
            crate::types::push_text(&mut out, line.as_str());
            proof {
                assert(text_lines(rest) == seq![rest]);
                assert(v@.skip(total as int) =~= Seq::empty());
                assert(crate::types::texts(out@) =~= done + seq![rest]);
                assert(crate::types::texts(out@) + text_lines(v@.skip(total as int))
                    =~= crate::types::texts(out@));
            }
            i = total;
        } else {
            let end: usize = if j > i && v[j - 1] == '\r' { j - 1 } else { j };
            let line = string_of(&v, i, end);
            proof {
                let piece = rest.take(j - i);
                if j > i {
                    assert(piece.last() == v@[j - 1]);
                }
                assert(line@ =~= without_cr(piece));
                assert(rest.skip(j - i + 1) =~= v@.skip(j + 1));
            }
            crate::types::push_text(&mut out, line.as_str());
            proof {
                let tail = text_lines(v@.skip(j + 1));
                assert(text_lines(rest) == seq![line@] + tail);
                assert(done + (seq![line@] + tail) =~= crate::types::texts(out@) + tail);
            }
            i = j + 1;
        }
    }
    assert(v@.skip(i as int) =~= Seq::empty());
    assert(crate::types::texts(out@) =~= text_lines(s@));
    out
}

// ---- order ----

/// `a` comes before `b` in the order of their characters.
pub open spec fn before(a: Seq<char>, b: Seq<char>) -> bool
    decreases a.len(),
{
    if b.len() == 0 {
        false
    } else if a.len() == 0 {
        true
    } else if a[0] == b[0] {
        before(a.skip(1), b.skip(1))
    } else {
        a[0] < b[0]
    }
}

/// Whether a text stands before another.
pub fn comes_before(a: &str, b: &str) -> (r: bool)
    ensures
        r == before(a@, b@),
{
    let v = chars_of(a);
    let w = chars_of(b);
    let mut i: usize = 0;
    assert(v@.skip(0) =~= v@);
    assert(w@.skip(0) =~= w@);
    while i < v.len() && i < w.len()
        invariant
            i <= v@.len(),
            i <= w@.len(),
            v@ == a@,
            w@ == b@,
            before(v@, w@) == before(v@.skip(i as int), w@.skip(i as int)),
        decreases v@.len() - i,
    {
        if v[i] != w[i] {
            return v[i] < w[i];
        }
        assert(v@.skip(i as int).skip(1) =~= v@.skip(i + 1));
        assert(w@.skip(i as int).skip(1) =~= w@.skip(i + 1));
        i += 1;
    }
    i < w.len()
}

/// `v`, in order, with `s` put behind those that it does not come before.
pub open spec fn with_text(v: Seq<Seq<char>>, s: Seq<char>) -> Seq<Seq<char>>
    decreases v.len(),
{
    if v.len() == 0 || !before(s, v.last()) {
        v.push(s)
    } else {
        with_text(v.drop_last(), s).push(v.last())
    }
}

/// The texts in order.
pub open spec fn in_order(v: Seq<Seq<char>>) -> Seq<Seq<char>>
    decreases v.len(),
{
    if v.len() == 0 {
        v
    } else {
        with_text(in_order(v.drop_last()), v.last())
    }
}

proof fn with_text_at(v: Seq<Seq<char>>, s: Seq<char>, k: int)
    requires
        0 <= k <= v.len(),
        k == 0 || !before(s, v[k - 1]),
        forall|i: int| k <= i < v.len() ==> before(s, #[trigger] v[i]),
    ensures
        with_text(v, s) == v.insert(k, s),
    decreases v.len(),
{
    if k == v.len() {
        assert(v.insert(k, s) =~= v.push(s));
    } else {
        assert(before(s, v[v.len() - 1]));
        with_text_at(v.drop_last(), s, k);
        assert(v.drop_last().insert(k, s).push(v.last()) =~= v.insert(k, s));
    }
}

/// Puts a list of texts in order.
pub fn sort(v: &Vec<String>) -> (r: Vec<String>)
    ensures
        crate::types::texts(r@) == in_order(crate::types::texts(v@)),
{
    let ghost all = crate::types::texts(v@);
    let mut out: Vec<String> = Vec::new();
    let mut i: usize = 0;
    assert(all.take(0) =~= Seq::<Seq<char>>::empty());
    assert(crate::types::texts(out@) =~= in_order(all.take(0)));
    while i < v.len()
        invariant
            i <= v@.len(),
            all == crate::types::texts(v@),
            crate::types::texts(out@) == in_order(all.take(i as int)),
        decreases v@.len() - i,
    {
        let mut k: usize = out.len();
        let ghost done = crate::types::texts(out@);
        while k > 0 && comes_before(v[i].as_str(), out[k - 1].as_str())
            invariant
                k <= out@.len(),
                i < v@.len(),
                done == crate::types::texts(out@),
                forall|x: int| k <= x < done.len() ==> before(v@[i as int]@, #[trigger] done[x]),
            decreases k,
        {
            k -= 1;
        }
        proof {
            if k > 0 {
                assert(done[k - 1] == out@[k - 1]@);
            }
            with_text_at(done, v@[i as int]@, k as int);
            assert(all.take(i + 1).drop_last() =~= all.take(i as int));
            assert(all.take(i + 1).last() == v@[i as int]@);
        }
        out.insert(k, own(v[i].as_str()));
        assert(crate::types::texts(out@) =~= done.insert(k as int, v@[i as int]@));
        i += 1;
    }
    assert(all.take(i as int) =~= all);
    out
}

/// Of two texts that differ, one comes before the other, and not the other way about.
pub proof fn order_is_total(a: Seq<char>, b: Seq<char>)
    ensures
        a == b || before(a, b) || before(b, a),
        !(before(a, b) && before(b, a)),
        a == b ==> !before(a, b),
    decreases a.len(),
{
    if a.len() == 0 && b.len() == 0 {
        assert(a =~= b);
    } else if a.len() > 0 && b.len() > 0 && a[0] == b[0] {
        order_is_total(a.skip(1), b.skip(1));
        if a.skip(1) == b.skip(1) {
            assert(a =~= seq![a[0]] + a.skip(1));
            assert(b =~= seq![b[0]] + b.skip(1));
        }
    }
}

/// What comes before something comes before what that comes before.
pub proof fn order_is_transitive(a: Seq<char>, b: Seq<char>, c: Seq<char>)
    requires
        before(a, b),
        before(b, c),
    ensures
        before(a, c),
    decreases a.len(),
{
    if a.len() > 0 && b.len() > 0 && c.len() > 0 {
        if a[0] == b[0] && b[0] == c[0] {
            order_is_transitive(a.skip(1), b.skip(1), c.skip(1));
        }
    }
}

/// No text of the list comes before one that stands in front of it.
pub open spec fn is_ordered(v: Seq<Seq<char>>) -> bool {
    forall|i: int, j: int| 0 <= i < j < v.len() ==> !before(#[trigger] v[j], #[trigger] v[i])
}

proof fn not_before_transitive(a: Seq<char>, b: Seq<char>, c: Seq<char>)
    requires
        !before(b, a),
        !before(c, b),
    ensures
        !before(c, a),
{
    order_is_total(a, b);
    order_is_total(b, c);
    if before(c, a) {
        if a != b && b != c {
            order_is_transitive(a, b, c);
            order_is_total(a, c);
        }
    }
}

proof fn with_text_ordered(v: Seq<Seq<char>>, s: Seq<char>)
    requires
        is_ordered(v),
    ensures
        is_ordered(with_text(v, s)),
        with_text(v, s).len() == v.len() + 1,
        forall|i: int| 0 <= i < with_text(v, s).len() ==> v.contains(#[trigger] with_text(v, s)[i])
            || with_text(v, s)[i] == s,
    decreases v.len(),
{
    let r = with_text(v, s);
    if v.len() == 0 {
    } else if !before(s, v.last()) {
        assert forall|i: int, j: int| 0 <= i < j < r.len() implies !before(
            #[trigger] r[j],
            #[trigger] r[i],
        ) by {
            if j == v.len() && i < v.len() - 1 {
                not_before_transitive(v[i], v.last(), s);
            }
        }
        assert forall|i: int| 0 <= i < r.len() implies v.contains(#[trigger] r[i]) || r[i] == s by {
            if i < v.len() {
                assert(v[i] == r[i]);
            }
        }
    } else {
        let d = v.drop_last();
        assert(is_ordered(d)) by {
            assert forall|i: int, j: int| 0 <= i < j < d.len() implies !before(
                #[trigger] d[j],
                #[trigger] d[i],
            ) by {
                assert(!before(v[j], v[i]));
            }
        }
        with_text_ordered(d, s);
        let q = with_text(d, s);
        assert forall|i: int, j: int| 0 <= i < j < r.len() implies !before(
            #[trigger] r[j],
            #[trigger] r[i],
        ) by {
            if j == q.len() {
                assert(r[i] == q[i]);
                if q[i] == s {
                    order_is_total(s, v.last());
                } else {
                    assert(d.contains(q[i]));
                    let k = choose|k: int| 0 <= k < d.len() && d[k] == q[i];
                    assert(v[k] == q[i]);
                    assert(!before(v[v.len() - 1], v[k]));
                }
            } else {
                assert(!before(q[j], q[i]));
            }
        }
        assert forall|i: int| 0 <= i < r.len() implies v.contains(#[trigger] r[i]) || r[i] == s by {
            if i < q.len() {
                assert(r[i] == q[i]);
                if q[i] != s {
                    assert(d.contains(q[i]));
                    let k = choose|k: int| 0 <= k < d.len() && d[k] == q[i];
                    assert(v[k] == q[i]);
                }
            } else {
                assert(v[v.len() - 1] == r[i]);
            }
        }
    }
}

/// Texts that were put in order are in order, and as many as before.
pub proof fn in_order_is_ordered(v: Seq<Seq<char>>)
    ensures
        is_ordered(in_order(v)),
        in_order(v).len() == v.len(),
    decreases v.len(),
{
    if v.len() > 0 {
        in_order_is_ordered(v.drop_last());
        with_text_ordered(in_order(v.drop_last()), v.last());
    }
}

// ---- bytes ----

/// How many bytes a character takes.
pub open spec fn byte_width(c: char) -> nat {
    if (c as u32) < 0x80 {
        1
    } else if (c as u32) < 0x800 {
        2
    } else if (c as u32) < 0x10000 {
        3
    } else {
        4
    }
}

/// How many bytes a text takes.
pub open spec fn byte_size(s: Seq<char>) -> nat
    decreases s.len(),
{
    if s.len() == 0 {
        0
    } else {
        byte_size(s.drop_last()) + byte_width(s.last())
    }
}

/// How many of the first characters fit into `n` bytes.
pub open spec fn fitting(s: Seq<char>, n: nat) -> nat
    decreases s.len(),
{
    if byte_size(s) <= n {
        s.len()
    } else {
        fitting(s.drop_last(), n)
    }
}

/// As many of the first characters as fit into `n` bytes.
pub open spec fn byte_prefix(s: Seq<char>, n: nat) -> Seq<char> {
    s.take(fitting(s, n) as int)
}

fn width_of(c: char) -> (r: u64)
    ensures
        r == byte_width(c),
{
    let n: u32 = c as u32;
    if n < 0x80 {
        1
    } else if n < 0x800 {
        2
    } else if n < 0x10000 {
        3
    } else {
        4
    }
}

proof fn fitting_prefix(s: Seq<char>, k: int, n: nat)
    requires
        0 <= k <= s.len(),
        byte_size(s.take(k)) <= n,
        k < s.len() ==> byte_size(s.take(k + 1)) > n,
    ensures
        fitting(s, n) == k,
    decreases s.len(),
{
    if k == s.len() {
        assert(s.take(k) =~= s);
    } else {
        size_grows(s, k + 1);
        let d = s.drop_last();
        if k < d.len() {
            assert(d.take(k) =~= s.take(k));
            assert(d.take(k + 1) =~= s.take(k + 1));
            fitting_prefix(d, k, n);
        } else {
            assert(d.take(k) =~= d);
            assert(s.take(k) =~= d);
            assert(s.take(k + 1) =~= s);
        }
    }
}

proof fn size_grows(s: Seq<char>, k: int)
    requires
        0 <= k <= s.len(),
    ensures
        byte_size(s.take(k)) <= byte_size(s),
    decreases s.len(),
{
    if k < s.len() {
        size_grows(s.drop_last(), k);
        assert(s.drop_last().take(k) =~= s.take(k));
    } else {
        assert(s.take(k) =~= s);
    }
}

fn fit(v: &Vec<char>, n: u64) -> (r: (usize, u64))
    requires
        n <= 0xffff_ffff,
    ensures
        r.0 <= v@.len(),
        r.0 == fitting(v@, n as nat),
        r.1 == byte_size(byte_prefix(v@, n as nat)),
{
    let mut size: u64 = 0;
    let mut k: usize = 0;
    assert(v@.take(0) =~= Seq::<char>::empty());
    while k < v.len() && size + width_of(v[k]) <= n
        invariant
            k <= v@.len(),
            size <= n <= 0xffff_ffff,
            size == byte_size(v@.take(k as int)),
        decreases v@.len() - k,
    {
        assert(v@.take(k + 1).drop_last() =~= v@.take(k as int));
        size = size + width_of(v[k]);
        k += 1;
    }
    proof {
        if k < v@.len() {
            assert(v@.take(k + 1).drop_last() =~= v@.take(k as int));
        }
        fitting_prefix(v@, k as int, n as nat);
    }
    (k, size)
}

/// The first characters of a text, as many as fit into `n` bytes.
pub fn first_bytes(s: &str, n: u64) -> (r: String)
    requires
        n <= 0xffff_ffff,
    ensures
        r@ == byte_prefix(s@, n as nat),
{
    let v = chars_of(s);
    let (k, _) = fit(&v, n);
    let head = string_of(&v, 0, k);
    assert(head@ =~= v@.take(k as int));
    head
}

/// No character stands across the border behind the first `n` bytes of a text.
pub open spec fn splits_at(s: Seq<char>, n: nat) -> bool {
    byte_size(s) <= n || byte_size(byte_prefix(s, n)) == n
}

/// Whether a text can be cut behind its first `n` bytes.
pub fn can_split(s: &str, n: u64) -> (r: bool)
    requires
        n <= 0xffff_ffff,
    ensures
        r == splits_at(s@, n as nat),
{
    let v = chars_of(s);
    let (_, size) = fit(&v, n);
    !is_wider(s, n) || size == n
}

proof fn fitting_bound(s: Seq<char>, n: nat)
    ensures
        fitting(s, n) <= s.len(),
        byte_size(s) > n ==> fitting(s, n) < s.len(),
    decreases s.len(),
{
    if byte_size(s) > n {
        fitting_bound(s.drop_last(), n);
    }
}

/// Whether a text takes more than `n` bytes.
pub fn is_wider(s: &str, n: u64) -> (r: bool)
    requires
        n <= 0xffff_ffff,
    ensures
        r == (byte_size(s@) > n),
{
    proof {
        fitting_bound(s@, n as nat);
    }
    let head = chars_of(first_bytes(s, n).as_str());
    let all = chars_of(s);
    head.len() < all.len()
}

/// Where a text is found: at the first index at or behind `from` where it stands, and
/// nowhere where it stands at none.
pub proof fn find_text_is_first(hay: Seq<char>, needle: Seq<char>, from: int)
    requires
        0 <= from,
    ensures
        match find_text(hay, needle, from) {
            Some(i) => from <= i && occurs_at(hay, needle, i) && forall|j: int|
                from <= j < i ==> !#[trigger] occurs_at(hay, needle, j),
            None => forall|j: int| from <= j ==> !#[trigger] occurs_at(hay, needle, j),
        },
    decreases hay.len() + 1 - from,
{
    if from + needle.len() <= hay.len() && !occurs_at(hay, needle, from) {
        find_text_is_first(hay, needle, from + 1);
    }
}

/// A text stands within whatever it is put into.
pub proof fn text_is_within(a: Seq<char>, needle: Seq<char>, b: Seq<char>)
    ensures
        occurs_at(a + needle + b, needle, a.len() as int),
        has_text(a + needle + b, needle),
{
    assert((a + needle + b).subrange(a.len() as int, a.len() + needle.len() as int) =~= needle);
    assert(occurs_at(a + needle + b, needle, a.len() as int));
}

/// A text that has another keeps it when something is put before or behind it.
pub proof fn text_stays_within(a: Seq<char>, s: Seq<char>, b: Seq<char>, needle: Seq<char>)
    requires
        has_text(s, needle),
    ensures
        has_text(a + s + b, needle),
{
    let i = choose|i: int| occurs_at(s, needle, i);
    let all = a + s + b;
    assert(all.subrange(a.len() + i, a.len() + i + needle.len()) =~= s.subrange(
        i,
        i + needle.len() as int,
    ));
    assert(occurs_at(all, needle, a.len() + i));
}

proof fn trim_left_strips(s: Seq<char>)
    ensures
        exists|k: int|
            0 <= k <= s.len() && trim_left(s) == #[trigger] s.skip(k) && forall|i: int|
                0 <= i < k ==> is_white(#[trigger] s[i]),
        trim_left(s).len() > 0 ==> !is_white(trim_left(s)[0]),
    decreases s.len(),
{
    if s.len() > 0 && is_white(s[0]) {
        let t = s.skip(1);
        trim_left_strips(t);
        let k = choose|k: int|
            0 <= k <= t.len() && trim_left(t) == #[trigger] t.skip(k) && forall|i: int|
                0 <= i < k ==> is_white(#[trigger] t[i]);
        assert(t.skip(k) =~= s.skip(k + 1));
        assert forall|i: int| 0 <= i < k + 1 implies is_white(#[trigger] s[i]) by {
            if i > 0 {
                assert(s[i] == t[i - 1]);
            }
        }
    } else {
        assert(s.skip(0) =~= s);
    }
}

proof fn trim_right_strips(s: Seq<char>)
    ensures
        trim_right(s).len() <= s.len(),
        trim_right(s) == s.take(trim_right(s).len() as int),
        forall|i: int| trim_right(s).len() <= i < s.len() ==> is_white(#[trigger] s[i]),
        trim_right(s).len() > 0 ==> !is_white(trim_right(s).last()),
    decreases s.len(),
{
    if s.len() > 0 && is_white(s.last()) {
        let t = s.drop_last();
        trim_right_strips(t);
        assert(t.take(trim_right(t).len() as int) =~= s.take(trim_right(t).len() as int));
        assert forall|i: int| trim_right(s).len() <= i < s.len() implies is_white(
            #[trigger] s[i],
        ) by {
            if i < t.len() {
                assert(s[i] == t[i]);
            }
        }
    } else {
        assert(s.take(s.len() as int) =~= s);
    }
}

/// Trimming takes white space off both ends and nothing else: what is left neither begins
/// nor ends with any, and what is gone is nothing but that.
pub proof fn trimming_strips_white_space(s: Seq<char>)
    ensures
        exists|k: int|
            0 <= k && k + trimmed(s).len() <= s.len() && trimmed(s) == #[trigger] s.subrange(
                k,
                k + trimmed(s).len() as int,
            ) && (forall|i: int| 0 <= i < k ==> is_white(#[trigger] s[i])) && forall|i: int|
                k + trimmed(s).len() <= i < s.len() ==> is_white(#[trigger] s[i]),
        trimmed(s).len() > 0 ==> !is_white(trimmed(s)[0]) && !is_white(trimmed(s).last()),
{
    trim_left_strips(s);
    let l = trim_left(s);
    let k = choose|k: int|
        0 <= k <= s.len() && l == #[trigger] s.skip(k) && forall|i: int|
            0 <= i < k ==> is_white(#[trigger] s[i]);
    trim_right_strips(l);
    let t = trimmed(s);
    assert(t =~= s.subrange(k, k + t.len() as int));
    assert forall|i: int| k + t.len() <= i < s.len() implies is_white(#[trigger] s[i]) by {
        assert(s[i] == l[i - k]);
    }
    if t.len() > 0 {
        assert(t[0] == l[0]);
    }
}

/// Lines that are ended one by one are read as those lines.
pub proof fn ended_line_is_a_line(line: Seq<char>, rest: Seq<char>)
    requires
        !line.contains('\n'),
        line.len() > 0 ==> line.last() != '\r',
    ensures
        text_lines(line + seq!['\n'] + rest) == seq![line] + text_lines(rest),
        text_lines(line + seq!['\r', '\n'] + rest) == seq![line] + text_lines(rest),
        line.len() > 0 ==> text_lines(line) == seq![line],
        text_lines(Seq::empty()) == Seq::<Seq<char>>::empty(),
{
    assert forall|i: int| 0 <= i < line.len() implies #[trigger] line[i] != '\n' by {
        assert(line.contains(line[i]));
    }
    let n = line.len() as int;
    let a = line + seq!['\n'] + rest;
    first_index_is(a, '\n', n);
    assert(a.take(n) =~= line);
    assert(a.skip(n + 1) =~= rest);
    let b = line + seq!['\r', '\n'] + rest;
    first_index_is(b, '\n', n + 1);
    assert(b.take(n + 1) =~= line.push('\r'));
    assert(line.push('\r').drop_last() =~= line);
    assert(b.skip(n + 2) =~= rest);
    if n > 0 {
        if first_index(line, '\n') < line.len() {
            first_index_found(line, '\n');
        }
    }
}

/// As many of the first characters as fit: they take no more than `n` bytes, and one
/// character more would.
pub proof fn prefix_fits_and_is_longest(s: Seq<char>, n: nat)
    ensures
        byte_prefix(s, n).is_prefix_of(s),
        byte_size(byte_prefix(s, n)) <= n,
        byte_prefix(s, n).len() < s.len() ==> byte_size(s.take(byte_prefix(s, n).len() + 1int)) > n,
    decreases s.len(),
{
    if byte_size(s) > n {
        let t = s.drop_last();
        prefix_fits_and_is_longest(t, n);
        fitting_bound(t, n);
        let k = fitting(t, n) as int;
        assert(t.take(k) =~= s.take(k));
        if k < t.len() {
            assert(t.take(k + 1) =~= s.take(k + 1));
        } else {
            assert(s.take(k + 1) =~= s);
        }
    } else {
        assert(s.take(s.len() as int) =~= s);
    }
}

proof fn with_text_holds(v: Seq<Seq<char>>, s: Seq<char>)
    ensures
        with_text(v, s).to_multiset() == v.to_multiset().insert(s),
    decreases v.len(),
{
    broadcast use vstd::seq_lib::group_to_multiset_ensures;

    if v.len() > 0 && before(s, v.last()) {
        with_text_holds(v.drop_last(), s);
        assert(v =~= v.drop_last().push(v.last()));
        assert(with_text(v, s).to_multiset() =~= v.to_multiset().insert(s));
    }
}

/// Putting texts in order loses none and adds none.
pub proof fn in_order_keeps_all(v: Seq<Seq<char>>)
    ensures
        in_order(v).to_multiset() == v.to_multiset(),
    decreases v.len(),
{
    broadcast use vstd::seq_lib::group_to_multiset_ensures;

    if v.len() > 0 {
        in_order_keeps_all(v.drop_last());
        with_text_holds(in_order(v.drop_last()), v.last());
        assert(v =~= v.drop_last().push(v.last()));
    }
}

/// Characters of one byte each are as many as the bytes that they take.
pub proof fn ascii_prefix_is_by_character(s: Seq<char>, n: nat)
    requires
        n <= s.len(),
        forall|i: int| 0 <= i < n ==> is_ascii_char(#[trigger] s[i]),
    ensures
        byte_prefix(s, n) == s.take(n as int),
        byte_size(byte_prefix(s, n)) == n,
{
    ascii_size(s, n);
    prefix_fits_and_is_longest(s, n);
    let k = byte_prefix(s, n).len();
    assert(byte_prefix(s, n) == s.take(k as int));
    if k < n {
        ascii_size(s, k + 1);
    } else if k > n {
        let t = s.take(k as int);
        longer_takes_more(t, n as int);
        assert(t.take(n as int) =~= s.take(n as int));
    }
}

proof fn ascii_size(s: Seq<char>, n: nat)
    requires
        n <= s.len(),
        forall|i: int| 0 <= i < n ==> is_ascii_char(#[trigger] s[i]),
    ensures
        byte_size(s.take(n as int)) == n,
    decreases n,
{
    if n > 0 {
        let t = s.take(n as int);
        assert(t.drop_last() =~= s.take(n - 1));
        assert(is_ascii_char(s[n - 1]));
        ascii_size(s, (n - 1) as nat);
    }
}

proof fn longer_takes_more(s: Seq<char>, k: int)
    requires
        0 <= k < s.len(),
    ensures
        byte_size(s.take(k)) < byte_size(s),
    decreases s.len(),
{
    let t = s.drop_last();
    if k < t.len() {
        longer_takes_more(t, k);
        assert(t.take(k) =~= s.take(k));
    } else {
        assert(t =~= s.take(k));
    }
}

} // verus!
