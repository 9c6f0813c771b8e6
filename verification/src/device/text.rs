//! Small string routines that the parts of the machine share.
//!
//! Places in a string are counted in characters, not in bytes.
use crate::device::details::{upper, upper_seq};
use vstd::prelude::*;
use vstd::string::*;

verus! {

/// Taken on trust from the documentation of `String::push`: it appends the
/// given character to the end of the string and leaves the characters
/// before it as they were.
pub assume_specification[ String::push ](s: &mut String, c: char)
    ensures
        final(s)@ == old(s)@.push(c),
;

/// What `str::to_uppercase` returns for a string with the characters `s`:
/// its upper-case form under the case mapping of Unicode. Nothing is said
/// here of what that form is, only that it depends on `s` alone.
pub uninterp spec fn unicode_uppercase(s: Seq<char>) -> Seq<char>;

/// Calls `str::to_uppercase`. Taken on trust: the string that comes back
/// holds the upper-case form of `s`, which is a function of the characters
/// of `s`.
#[verifier::external_body]
pub(crate) fn to_uppercase(s: &str) -> (r: String)
    ensures
        r@ == unicode_uppercase(s@),
{
    s.to_uppercase()
}

/// Whether `i` is the first place at which `c` occurs in `s`.
pub open spec fn is_first_index(s: Seq<char>, c: char, i: int) -> bool {
    &&& 0 <= i < s.len()
    &&& s[i] == c
    &&& forall|j: int| 0 <= j < i ==> s[j] != c
}

/// The character that stands for the digit `d`.
pub open spec fn digit(d: int) -> char {
    ('0' as int + d) as char
}

/// The number `n` written in decimal digits.
pub open spec fn decimal(n: nat) -> Seq<char>
    decreases n,
{
    if n < 10 {
        seq![digit(n as int)]
    } else {
        decimal(n / 10).push(digit((n % 10) as int))
    }
}

/// The text `head`, then `actual` and `expected` in decimal digits with a
/// stroke between them, then a note on which is which.
pub open spec fn counts_text(head: Seq<char>, actual: usize, expected: usize) -> Seq<char> {
    (head + decimal(actual as nat)).push('/') + decimal(expected as nat)
        + " (actual/expected)"@
}

/// The canonical form of `c`.
pub fn to_upper(c: char) -> (r: char)
    ensures
        r == upper(c),
{
    if 'a' <= c && c <= 'z' {
        (c as u8 - 32) as char
    } else {
        c
    }
}

/// The first place at which `c` occurs in `s`, if it occurs at all.
pub fn find_char(s: &str, c: char) -> (r: Option<usize>)
    ensures
        match r {
            Some(i) => is_first_index(s@, c, i as int),
            None => !s@.contains(c),
        },
{
    // the count bounds the place, which so cannot overflow
    let n = s.unicode_len();
    let mut i: usize = 0;
    for ch in it: s.chars()
        invariant
            it.seq() == s@,
            n == s@.len(),
            i == it.index(),
            forall|j: int| 0 <= j < i ==> s@[j] != c,
    {
        if ch == c {
            return Some(i);
        }
        i += 1;
    }
    None
}

/// A copy of `s` in which every character is in canonical form.
pub fn ascii_uppercase(s: &str) -> (r: String)
    ensures
        r@ == upper_seq(s@),
{
    let mut r = String::new();
    for ch in it: s.chars()
        invariant
            it.seq() == s@,
            r@ == upper_seq(s@.take(it.index())),
    {
        r.push(to_upper(ch));
    }
    r
}

/// Whether `a` and `b` hold the same characters.
pub fn same_text(a: &str, b: &str) -> (r: bool)
    ensures
        r == (a@ == b@),
{
    let n = a.unicode_len();
    if n != b.unicode_len() {
        return false;
    }
    let mut i: usize = 0;
    while i < n
        invariant
            n == a@.len(),
            n == b@.len(),
            i <= n,
            a@.take(i as int) == b@.take(i as int),
        decreases n - i,
    {
        if a.get_char(i) != b.get_char(i) {
            return false;
        }
        i += 1;
    }
    proof {
        assert(a@.take(n as int) == a@);
        assert(b@.take(n as int) == b@);
    }
    true
}

/// The number `n` written in decimal digits.
pub fn decimal_string(n: usize) -> (r: String)
    ensures
        r@ == decimal(n as nat),
    decreases n,
{
    let mut r = if n < 10 {
        String::new()
    } else {
        decimal_string(n / 10)
    };
    r.push((48 + (n % 10) as u8) as char);
    r
}

/// The text `head` followed by the character `c`.
pub fn with_char(head: &str, c: char) -> (r: String)
    ensures
        r@ == head@.push(c),
{
    let mut r = head.to_owned();
    r.push(c);
    r
}

/// The text `head` followed by the text `tail`.
pub fn with_text(head: &str, tail: &str) -> (r: String)
    ensures
        r@ == head@ + tail@,
{
    let mut r = head.to_owned();
    r.append(tail);
    r
}

/// The text `head`, then `actual` and `expected` in decimal digits with a
/// stroke between them, then a note on which is which.
pub fn with_counts(head: &str, actual: usize, expected: usize) -> (r: String)
    ensures
        r@ == counts_text(head@, actual, expected),
{
    let mut r = head.to_owned();
    r.append(decimal_string(actual).as_str());
    r.push('/');
    r.append(decimal_string(expected).as_str());
    r.append(" (actual/expected)");
    r
}

} // verus!
