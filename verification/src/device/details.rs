//! The alphabet, the historical wiring and notch tables, and the checks that
//! every wiring and notch set has to pass before a disk is built from it.
use crate::device::text::{counts_text, find_char, with_char, with_counts};
use vstd::prelude::*;
use vstd::seq_lib::*;
use vstd::set_lib::*;
use vstd::string::*;

verus! {

/// The symbols of the machine, in contact order.
pub const ALPHABET: &'static str = "ABCDEFGHIJKLMNOPQRSTUVWXYZ";

/// The positions a rotor can take, named by the symbol shown in its window.
pub const SEGMENTS: &'static str = ALPHABET;

// Wirings of the rotors: the symbol at index `i` is the contact that the
// `i`-th symbol of the alphabet is wired to.
pub const RING_I: &'static str = "EKMFLGDQVZNTOWYHXUSPAIBRCJ";

pub const RING_II: &'static str = "AJDKSIRUXBLHWTMCQGZNPYFVOE";

pub const RING_III: &'static str = "BDFHJLCPRTXVZNYEIWGAKMUSQO";

pub const RING_IV: &'static str = "ESOVPZJAYQUIRHXLNFTGKDCMWB";

pub const RING_V: &'static str = "VZBRGITYUPSDNHLXAWMJQOFECK";

pub const RING_VI: &'static str = "JPGVOUMFYQBENHZRDKASXLICTW";

pub const RING_VII: &'static str = "NZJHGRCXMYSWBOUFAIVLPEKQDT";

pub const RING_VIII: &'static str = "FKQHTLXOCBJSPDZRAMEWNIUYGV";

// Wirings of the reflectors.
pub const RING_A: &'static str = "EJMZALYXVBWFCRQUONTSPIKHGD";

pub const RING_B: &'static str = "YRUHQSLDPXNGOKMIEBFZCWVJAT";

pub const RING_C: &'static str = "FVPJIAOYEDRZXWGCTKUQSBNMHL";

// Turnover notches of the rotors.
pub const NOTCH_I: &'static str = "Q";

pub const NOTCH_II: &'static str = "E";

pub const NOTCH_III: &'static str = "V";

pub const NOTCH_IV: &'static str = "J";

pub const NOTCH_V: &'static str = "Z";

pub const NOTCH_VI: &'static str = "ZM";

pub const NOTCH_VII: &'static str = "ZM";

pub const NOTCH_VIII: &'static str = "ZM";

/// Why a wiring or a notch set was turned down.
#[derive(Debug, Clone)]
pub enum SegmentError {
    /// The wiring has as many contacts as the first number says; the second
    /// is the number it must have.
    InvalidRingSize(usize, usize),
    /// The wiring has no contact for this symbol.
    MissedRingSegment(char),
    /// This notch is no symbol of the alphabet.
    InvalidNotch(char),
}

impl SegmentError {
    /// What the error says.
    pub open spec fn text(&self) -> Seq<char> {
        match self {
            SegmentError::InvalidRingSize(actual, expected) => counts_text(
                "invalid ring size: "@,
                *actual,
                *expected,
            ),
            SegmentError::MissedRingSegment(missed) => "missed ring segment: "@.push(*missed),
            SegmentError::InvalidNotch(notch) => "invalid notch: "@.push(*notch),
        }
    }

    /// What the error says.
    pub fn message(&self) -> (r: String)
        ensures
            r@ == self.text(),
    {
        match self {
            SegmentError::InvalidRingSize(actual, expected) => with_counts(
                "invalid ring size: ",
                *actual,
                *expected,
            ),
            SegmentError::MissedRingSegment(missed) => with_char("missed ring segment: ", *missed),
            SegmentError::InvalidNotch(notch) => with_char("invalid notch: ", *notch),
        }
    }
}

/// Number of symbols in the alphabet, and so of contacts on each side of a disk.
pub open spec fn alphabet_size() -> int {
    26
}

/// Whether `c` is one of the symbols of the alphabet.
pub open spec fn is_symbol(c: char) -> bool {
    'A' <= c && c <= 'Z'
}

/// The place of symbol `c` in the alphabet, counted from zero.
pub open spec fn symbol_index(c: char) -> int {
    c as int - 'A' as int
}

/// The symbol at place `i` of the alphabet.
pub open spec fn symbol_at(i: int) -> char {
    ('A' as int + i) as char
}

/// The canonical form of a character: lower-case ASCII letters become upper
/// case, every other character stays as it is.
pub open spec fn upper(c: char) -> char {
    if 'a' <= c && c <= 'z' {
        (c as int - 32) as char
    } else {
        c
    }
}

/// The canonical form of every character of `s`.
pub open spec fn upper_seq(s: Seq<char>) -> Seq<char> {
    Seq::new(s.len(), |i: int| upper(s[i]))
}

/// Whether every element of `s` is a symbol of the alphabet.
pub open spec fn all_symbols(s: Seq<char>) -> bool {
    forall|i: int| 0 <= i < s.len() ==> is_symbol(#[trigger] s[i])
}

/// Whether `s` is a wiring: as long as the alphabet, with every symbol of the
/// alphabet on one of its contacts.
pub open spec fn is_wiring(s: Seq<char>) -> bool {
    &&& s.len() == alphabet_size()
    &&& forall|c: char| is_symbol(c) ==> #[trigger] s.contains(c)
}

/// The alphabet constant holds the symbols in index order.
pub proof fn lemma_alphabet()
    ensures
        ALPHABET@.len() == alphabet_size(),
        SEGMENTS@ == ALPHABET@,
        forall|i: int| 0 <= i < alphabet_size() ==> ALPHABET@[i] == symbol_at(i),
        forall|c: char| is_symbol(c) <==> #[trigger] ALPHABET@.contains(c),
{
    reveal_strlit("ABCDEFGHIJKLMNOPQRSTUVWXYZ");
    assert forall|c: char| is_symbol(c) implies #[trigger] ALPHABET@.contains(c) by {
        assert(ALPHABET@[symbol_index(c)] == c);
    }
}

/// Symbols and their indices correspond one to one.
pub proof fn lemma_symbol_index()
    ensures
        forall|c: char|
            is_symbol(c) ==> 0 <= #[trigger] symbol_index(c) < alphabet_size() && symbol_at(
                symbol_index(c),
            ) == c,
        forall|i: int|
            0 <= i < alphabet_size() ==> is_symbol(#[trigger] symbol_at(i)) && symbol_index(
                symbol_at(i),
            ) == i,
        forall|c: char| is_symbol(#[trigger] upper(c)) ==> upper(upper(c)) == upper(c),
        forall|c: char| is_symbol(c) ==> upper(c) == c,
{
}

/// A wiring is a bijection: each of its contacts is a symbol, and no symbol
/// sits on two contacts.
pub proof fn lemma_wiring_is_permutation(s: Seq<char>)
    requires
        is_wiring(s),
    ensures
        all_symbols(s),
        s.no_duplicates(),
{
    let t = Seq::new(s.len(), |i: int| symbol_index(s[i]));
    let range = set_int_range(0, 26);
    lemma_int_range(0, 26);
    t.lemma_cardinality_of_set();
    seq_to_set_is_finite(t);
    assert(range.subset_of(t.to_set())) by {
        assert forall|k: int| range.contains(k) implies t.to_set().contains(k) by {
            let c = symbol_at(k);
            assert(s.contains(c));
            let i = choose|i: int| 0 <= i < s.len() && s[i] == c;
            assert(t[i] == k);
        }
    }
    lemma_len_subset(range, t.to_set());
    t.lemma_no_dup_set_cardinality();
    lemma_subset_equality(range, t.to_set());
    assert forall|i: int| 0 <= i < s.len() implies is_symbol(#[trigger] s[i]) by {
        assert(t.to_set().contains(t[i]));
    }
    assert forall|i: int, j: int| 0 <= i < s.len() && 0 <= j < s.len() && i != j implies s[i]
        != s[j] by {
        assert(t[i] != t[j]);
    }
}

/// The place of `c` in the alphabet, if `c` is one of its symbols.
pub fn index_of_symbol(c: char) -> (r: Option<usize>)
    ensures
        match r {
            Some(i) => is_symbol(c) && i == symbol_index(c),
            None => !is_symbol(c),
        },
{
    proof {
        lemma_alphabet();
    }
    let r = find_char(SEGMENTS, c);
    proof {
        if let Some(i) = r {
            assert(ALPHABET@[i as int] == symbol_at(i as int));
        }
    }
    r
}

/// The symbol at place `i` of the alphabet.
pub fn symbol_of_index(i: usize) -> (c: char)
    requires
        i < alphabet_size(),
    ensures
        c == symbol_at(i as int),
        is_symbol(c),
{
    proof {
        lemma_alphabet();
    }
    SEGMENTS.get_char(i)
}

/// Whether `k` is the first place of `s` that holds no symbol of the alphabet.
pub open spec fn is_first_outsider(s: Seq<char>, k: int) -> bool {
    &&& 0 <= k < s.len()
    &&& !is_symbol(s[k])
    &&& forall|j: int| 0 <= j < k ==> is_symbol(#[trigger] s[j])
}

/// Whether each of the first `k` characters of `s` names a symbol, read
/// without regard to case.
pub open spec fn names_symbols(s: Seq<char>, k: int) -> bool {
    forall|j: int| 0 <= j < k ==> is_symbol(upper(#[trigger] s[j]))
}

/// Whether `m` is the first symbol of the alphabet that `s` has no contact for.
pub open spec fn is_first_missing(s: Seq<char>, m: char) -> bool {
    &&& is_symbol(m)
    &&& !s.contains(m)
    &&& forall|c: char| is_symbol(c) && c < m ==> #[trigger] s.contains(c)
}

/// Whether `r` is the verdict on `s` as a wiring: a wrong size is reported
/// first, then the first symbol without a contact; a wiring passes.
pub open spec fn ring_verdict(s: Seq<char>, r: Result<(), SegmentError>) -> bool {
    if s.len() != alphabet_size() {
        r == Err::<(), SegmentError>(
            SegmentError::InvalidRingSize(s.len() as usize, alphabet_size() as usize),
        )
    } else if is_wiring(s) {
        r is Ok
    } else {
        r matches Err(SegmentError::MissedRingSegment(m)) && is_first_missing(s, m)
    }
}

/// Whether `r` is the verdict on `s` as a notch set: the first element that
/// is no symbol is reported; a set of symbols passes.
pub open spec fn notch_verdict(s: Seq<char>, r: Result<(), SegmentError>) -> bool {
    if all_symbols(s) {
        r is Ok
    } else {
        r matches Err(SegmentError::InvalidNotch(c)) && exists|k: int|
            is_first_outsider(s, k) && s[k] == c
    }
}

/// Checks that `outputs` is a wiring. The characters are taken as they are:
/// a lower-case letter is no symbol.
pub fn check_ring(outputs: &String) -> (r: Result<(), SegmentError>)
    ensures
        ring_verdict(outputs@, r),
        r is Ok <==> is_wiring(outputs@),
{
    proof {
        lemma_alphabet();
    }
    let actual = outputs.as_str().unicode_len();
    let expected = SEGMENTS.unicode_len();
    if expected != actual {
        return Err(SegmentError::InvalidRingSize(actual, expected));
    }
    for val in it: SEGMENTS.chars()
        invariant
            it.seq() == ALPHABET@,
            outputs@.len() == alphabet_size(),
            forall|j: int| 0 <= j < it.index() ==> outputs@.contains(symbol_at(j)),
    {
        proof {
            lemma_alphabet();
            assert(val == symbol_at(it.index()));
        }
        if find_char(outputs.as_str(), val).is_none() {
            proof {
                assert forall|c: char| is_symbol(c) && c < val implies #[trigger] outputs@.contains(
                    c,
                ) by {
                    assert(c == symbol_at(symbol_index(c)));
                }
            }
            return Err(SegmentError::MissedRingSegment(val));
        }
    }
    proof {
        assert forall|c: char| is_symbol(c) implies #[trigger] outputs@.contains(c) by {
            assert(c == symbol_at(symbol_index(c)));
        }
    }
    Ok(())
}

/// Checks that every element of `notches` is a symbol of the alphabet.
pub fn check_notches(notches: &String) -> (r: Result<(), SegmentError>)
    ensures
        notch_verdict(notches@, r),
        r is Ok <==> all_symbols(notches@),
{
    for notch in it: notches.as_str().chars()
        invariant
            it.seq() == notches@,
            forall|j: int| 0 <= j < it.index() ==> is_symbol(#[trigger] notches@[j]),
    {
        if index_of_symbol(notch).is_none() {
            return Err(SegmentError::InvalidNotch(notch));
        }
    }
    Ok(())
}

/// Whether `c` is among the first `k` elements of `s`.
pub open spec fn occurs_before(s: Seq<char>, c: char, k: int) -> bool
    decreases k,
{
    if k <= 0 {
        false
    } else {
        s[k - 1] == c || occurs_before(s, c, k - 1)
    }
}

/// What occurs among the first elements of `s` occurs in `s`.
pub proof fn lemma_occurs_before(s: Seq<char>, c: char, k: int)
    requires
        k <= s.len(),
        occurs_before(s, c, k),
    ensures
        s.contains(c),
    decreases k,
{
    if k > 0 && s[k - 1] != c {
        lemma_occurs_before(s, c, k - 1);
    }
}

/// A table of the alphabet's size on which every symbol occurs is a wiring.
pub proof fn lemma_covering_table(s: Seq<char>)
    requires
        s.len() == alphabet_size(),
        forall|c: char| is_symbol(c) ==> occurs_before(s, c, alphabet_size()),
    ensures
        is_wiring(s),
{
    assert forall|c: char| is_symbol(c) implies #[trigger] s.contains(c) by {
        lemma_occurs_before(s, c, alphabet_size());
    }
}

/// A sequence of symbols is in canonical form already.
pub proof fn lemma_symbols_are_canonical(s: Seq<char>)
    requires
        all_symbols(s),
    ensures
        upper_seq(s) == s,
{
}

/// The table of rotor I is a wiring, and its notches are symbols.
pub proof fn lemma_rotor_i()
    ensures
        is_wiring(RING_I@),
        all_symbols(NOTCH_I@),
{
    reveal_strlit("EKMFLGDQVZNTOWYHXUSPAIBRCJ");
    reveal_strlit("Q");
    assert forall|c: char| is_symbol(c) implies occurs_before(RING_I@, c, 26) by {
        reveal_with_fuel(occurs_before, 27);
    }
    lemma_covering_table(RING_I@);
}

/// The table of rotor II is a wiring, and its notches are symbols.
pub proof fn lemma_rotor_ii()
    ensures
        is_wiring(RING_II@),
        all_symbols(NOTCH_II@),
{
    reveal_strlit("AJDKSIRUXBLHWTMCQGZNPYFVOE");
    reveal_strlit("E");
    assert forall|c: char| is_symbol(c) implies occurs_before(RING_II@, c, 26) by {
        reveal_with_fuel(occurs_before, 27);
    }
    lemma_covering_table(RING_II@);
}

/// The table of rotor III is a wiring, and its notches are symbols.
pub proof fn lemma_rotor_iii()
    ensures
        is_wiring(RING_III@),
        all_symbols(NOTCH_III@),
{
    reveal_strlit("BDFHJLCPRTXVZNYEIWGAKMUSQO");
    reveal_strlit("V");
    assert forall|c: char| is_symbol(c) implies occurs_before(RING_III@, c, 26) by {
        reveal_with_fuel(occurs_before, 27);
    }
    lemma_covering_table(RING_III@);
}

/// The table of rotor IV is a wiring, and its notches are symbols.
pub proof fn lemma_rotor_iv()
    ensures
        is_wiring(RING_IV@),
        all_symbols(NOTCH_IV@),
{
    reveal_strlit("ESOVPZJAYQUIRHXLNFTGKDCMWB");
    reveal_strlit("J");
    assert forall|c: char| is_symbol(c) implies occurs_before(RING_IV@, c, 26) by {
        reveal_with_fuel(occurs_before, 27);
    }
    lemma_covering_table(RING_IV@);
}

/// The table of rotor V is a wiring, and its notches are symbols.
pub proof fn lemma_rotor_v()
    ensures
        is_wiring(RING_V@),
        all_symbols(NOTCH_V@),
{
    reveal_strlit("VZBRGITYUPSDNHLXAWMJQOFECK");
    reveal_strlit("Z");
    assert forall|c: char| is_symbol(c) implies occurs_before(RING_V@, c, 26) by {
        reveal_with_fuel(occurs_before, 27);
    }
    lemma_covering_table(RING_V@);
}

/// The table of rotor VI is a wiring, and its notches are symbols.
pub proof fn lemma_rotor_vi()
    ensures
        is_wiring(RING_VI@),
        all_symbols(NOTCH_VI@),
{
    reveal_strlit("JPGVOUMFYQBENHZRDKASXLICTW");
    reveal_strlit("ZM");
    assert forall|c: char| is_symbol(c) implies occurs_before(RING_VI@, c, 26) by {
        reveal_with_fuel(occurs_before, 27);
    }
    lemma_covering_table(RING_VI@);
}

/// The table of rotor VII is a wiring, and its notches are symbols.
pub proof fn lemma_rotor_vii()
    ensures
        is_wiring(RING_VII@),
        all_symbols(NOTCH_VII@),
{
    reveal_strlit("NZJHGRCXMYSWBOUFAIVLPEKQDT");
    reveal_strlit("ZM");
    assert forall|c: char| is_symbol(c) implies occurs_before(RING_VII@, c, 26) by {
        reveal_with_fuel(occurs_before, 27);
    }
    lemma_covering_table(RING_VII@);
}

/// The table of rotor VIII is a wiring, and its notches are symbols.
pub proof fn lemma_rotor_viii()
    ensures
        is_wiring(RING_VIII@),
        all_symbols(NOTCH_VIII@),
{
    reveal_strlit("FKQHTLXOCBJSPDZRAMEWNIUYGV");
    reveal_strlit("ZM");
    assert forall|c: char| is_symbol(c) implies occurs_before(RING_VIII@, c, 26) by {
        reveal_with_fuel(occurs_before, 27);
    }
    lemma_covering_table(RING_VIII@);
}

/// The table of reflector A is a wiring.
pub proof fn lemma_reflector_a()
    ensures
        is_wiring(RING_A@),
{
    reveal_strlit("EJMZALYXVBWFCRQUONTSPIKHGD");
    assert forall|c: char| is_symbol(c) implies occurs_before(RING_A@, c, 26) by {
        reveal_with_fuel(occurs_before, 27);
    }
    lemma_covering_table(RING_A@);
}

/// The table of reflector B is a wiring.
pub proof fn lemma_reflector_b()
    ensures
        is_wiring(RING_B@),
{
    reveal_strlit("YRUHQSLDPXNGOKMIEBFZCWVJAT");
    assert forall|c: char| is_symbol(c) implies occurs_before(RING_B@, c, 26) by {
        reveal_with_fuel(occurs_before, 27);
    }
    lemma_covering_table(RING_B@);
}

/// The table of reflector C is a wiring.
pub proof fn lemma_reflector_c()
    ensures
        is_wiring(RING_C@),
{
    reveal_strlit("FVPJIAOYEDRZXWGCTKUQSBNMHL");
    assert forall|c: char| is_symbol(c) implies occurs_before(RING_C@, c, 26) by {
        reveal_with_fuel(occurs_before, 27);
    }
    lemma_covering_table(RING_C@);
}

} // verus!
