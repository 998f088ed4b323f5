//! Characters and text: what the game needs of strings.

use vstd::prelude::*;
use vstd::std_specs::iter::IteratorSpec;
use vstd::utf8::{decode_utf8, valid_utf8};

verus! {

broadcast use vstd::string::group_string_axioms;

/// The characters of `s`, in order.
pub fn chars_of(s: &str) -> (v: Vec<char>)
    ensures
        v@ == s@,
{
    let mut v: Vec<char> = Vec::new();
    let mut it = s.chars();
    loop
        invariant
            it.obeys_prophetic_iter_laws(),
            s@ == v@ + it.remaining(),
            it.decrease() is Some,
        decreases it.decrease()->0,
    {
        match it.next() {
            Some(c) => {
                v.push(c);
            },
            None => {
                assert(v@ + it.remaining() == v@);
                return v;
            },
        }
    }
}

} // verus!

verus! {

/// The ASCII upper-case of a character: `a`..`z` become `A`..`Z`, every
/// other character stays.
pub open spec fn ascii_upper(c: char) -> char {
    if 'a' <= c && c <= 'z' {
        ((c as u32) - 32) as char
    } else {
        c
    }
}

/// `c.to_ascii_uppercase()`.
pub fn to_ascii_upper(c: char) -> (u: char)
    ensures
        u == ascii_upper(c),
{
    if 'a' <= c && c <= 'z' {
        ((c as u8) - 32) as char
    } else {
        c
    }
}

/// Each character of `s` in ASCII upper case.
pub fn ascii_upper_all(s: &Vec<char>) -> (u: Vec<char>)
    ensures
        u@ == s@.map_values(|c: char| ascii_upper(c)),
{
    let mut u: Vec<char> = Vec::new();
    let n = s.len();
    for i in 0..n
        invariant
            n == s@.len(),
            u@ == s@.take(i as int).map_values(|c: char| ascii_upper(c)),
    {
        u.push(to_ascii_upper(s[i]));
        assert(s@.take(i + 1).map_values(|c: char| ascii_upper(c)) =~= s@.take(i as int).map_values(
            |c: char| ascii_upper(c),
        ).push(ascii_upper(s@[i as int])));
    }
    assert(s@.take(n as int) =~= s@);
    u
}

/// Whether `c` occurs in `s`.
pub fn contains_char(s: &Vec<char>, c: char) -> (b: bool)
    ensures
        b == s@.contains(c),
{
    let n = s.len();
    for i in 0..n
        invariant
            n == s@.len(),
            forall|j: int| 0 <= j < i ==> s@[j] != c,
    {
        if s[i] == c {
            return true;
        }
    }
    false
}

/// Whether `c` is an ASCII character.
pub open spec fn is_ascii_char(c: char) -> bool {
    (c as u32) < 128
}

/// Whether `c` is an ASCII letter, `A`..`Z` or `a`..`z`.
pub open spec fn ascii_letter(c: char) -> bool {
    ('A' <= c && c <= 'Z') || ('a' <= c && c <= 'z')
}

/// Whether every character of `s` is ASCII.
pub open spec fn all_ascii(s: Seq<char>) -> bool {
    forall|i: int| 0 <= i < s.len() ==> is_ascii_char(#[trigger] s[i])
}

/// What `str::to_uppercase` gives for a character sequence: the Unicode
/// upper-case mapping, which may change the number of characters.
pub uninterp spec fn unicode_uppercase(s: Seq<char>) -> Seq<char>;

/// Calls `str::to_uppercase`. Trusted: the result's characters are
/// `unicode_uppercase` of the argument's, and on ASCII text the Unicode
/// mapping is the ASCII one (`a`..`z` to `A`..`Z`, all else kept). Of
/// other text nothing more is claimed.
#[verifier::external_body]
pub(crate) fn to_uppercase(s: &str) -> (u: String)
    ensures
        u@ == unicode_uppercase(s@),
        all_ascii(s@) ==> u@ == s@.map_values(|c: char| ascii_upper(c)),
{
    s.to_uppercase()
}

/// What `char::is_alphabetic` answers: whether the character has the
/// Unicode `Alphabetic` property.
pub uninterp spec fn unicode_alphabetic(c: char) -> bool;

/// Calls `char::is_alphabetic`. Trusted: the answer is
/// `unicode_alphabetic(c)`, and among ASCII characters exactly the
/// letters `A`..`Z` and `a`..`z` have the property. Of other characters
/// nothing more is claimed.
#[verifier::external_body]
pub(crate) fn is_alphabetic(c: char) -> (b: bool)
    ensures
        b == unicode_alphabetic(c),
        is_ascii_char(c) ==> (b == ascii_letter(c)),
{
    c.is_alphabetic()
}

/// Calls `String::from_utf8`. Trusted: it succeeds exactly on valid UTF-8
/// (as `vstd::utf8::valid_utf8` defines it) and then holds the decoded
/// characters.
#[verifier::external_body]
pub(crate) fn string_from_utf8(bytes: Vec<u8>) -> (s: Option<String>)
    ensures
        s is Some <==> valid_utf8(bytes@),
        s matches Some(s) ==> s@ == decode_utf8(bytes@),
{
    String::from_utf8(bytes).ok()
}

} // verus!

verus! {

/// ASCII upper case moves exactly the letters `a`..`z`, each to the
/// character 32 below it (`A`..`Z`), and keeps every other character.
pub proof fn lemma_ascii_upper(c: char)
    ensures
        'a' <= c && c <= 'z' ==> ascii_upper(c) as u32 == c as u32 - 32 && 'A' <= ascii_upper(c)
            && ascii_upper(c) <= 'Z',
        !('a' <= c && c <= 'z') ==> ascii_upper(c) == c,
        ascii_letter(c) ==> 'A' <= ascii_upper(c) && ascii_upper(c) <= 'Z',
{
}

} // verus!
