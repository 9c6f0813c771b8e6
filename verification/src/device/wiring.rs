//! The signal path through one wired disk, as arithmetic on contact indices.
//!
//! A disk has one contact per symbol on each side. Its wiring joins the
//! contact at index `i` on the right to the contact of the symbol `w[i]` on
//! the left. A disk that is turned by `shift` places meets the signal at
//! contacts moved by `shift`, on the way in and on the way out.
use crate::device::details::{
    alphabet_size, is_symbol, is_wiring, lemma_symbol_index, lemma_wiring_is_permutation,
    symbol_at, symbol_index,
};
use crate::device::text::is_first_index;
use vstd::prelude::*;

verus! {

/// The contact index that an index beyond either end of the alphabet falls on.
pub open spec fn wrap(i: int) -> int {
    i % 26
}

/// The index of the left contact that the right contact `i` of `w` is wired to.
pub open spec fn wire_out(w: Seq<char>, i: int) -> int {
    symbol_index(w[i])
}

/// The index of the right contact that the left contact `i` of `w` is wired to.
pub open spec fn wire_back(w: Seq<char>, i: int) -> int {
    w.index_of(symbol_at(i))
}

/// The symbol that `c` leaves as, entering on the right of a disk with
/// wiring `w` that is turned by `shift` places.
pub open spec fn pass_forward(w: Seq<char>, shift: int, c: char) -> char {
    symbol_at(wrap(wire_out(w, wrap(symbol_index(c) + shift)) - shift))
}

/// The symbol that `c` leaves as, entering on the left of a disk with
/// wiring `w` that is turned by `shift` places.
pub open spec fn pass_backward(w: Seq<char>, shift: int, c: char) -> char {
    symbol_at(wrap(wire_back(w, wrap(symbol_index(c) + shift)) - shift))
}

/// Whether the wiring `w` sends every symbol to a partner that it sends back.
pub open spec fn is_involution(w: Seq<char>) -> bool {
    forall|i: int| 0 <= i < alphabet_size() ==> wire_out(w, #[trigger] wire_out(w, i)) == i
}

/// Whether the wiring `w` sends each of its first `k` contacts to a partner
/// that it sends back.
pub open spec fn swaps_before(w: Seq<char>, k: int) -> bool
    decreases k,
{
    if k <= 0 {
        true
    } else {
        wire_out(w, wire_out(w, k - 1)) == k - 1 && swaps_before(w, k - 1)
    }
}

/// A wiring that swaps all its contacts in pairs is an involution.
pub proof fn lemma_swaps_before(w: Seq<char>, k: int)
    requires
        swaps_before(w, k),
    ensures
        forall|i: int| 0 <= i < k ==> wire_out(w, #[trigger] wire_out(w, i)) == i,
    decreases k,
{
    if k > 0 {
        lemma_swaps_before(w, k - 1);
    }
}

/// The two directions through a wiring undo each other, and a symbol is found
/// on a wiring at one place only.
pub proof fn lemma_wire_inverse(w: Seq<char>)
    requires
        is_wiring(w),
    ensures
        forall|i: int|
            0 <= i < alphabet_size() ==> 0 <= #[trigger] wire_out(w, i) < alphabet_size()
                && wire_back(w, wire_out(w, i)) == i,
        forall|i: int|
            0 <= i < alphabet_size() ==> 0 <= #[trigger] wire_back(w, i) < alphabet_size()
                && wire_out(w, wire_back(w, i)) == i,
        forall|c: char, k: int| #[trigger] is_first_index(w, c, k) ==> k == w.index_of(c),
{
    lemma_wiring_is_permutation(w);
    lemma_symbol_index();
    assert forall|i: int| 0 <= i < alphabet_size() implies 0 <= #[trigger] wire_out(w, i)
        < alphabet_size() && wire_back(w, wire_out(w, i)) == i by {
        assert(is_symbol(w[i]));
        let k = w.index_of(w[i]);
        assert(w[k] == w[i]);
    }
    assert forall|i: int| 0 <= i < alphabet_size() implies 0 <= #[trigger] wire_back(w, i)
        < alphabet_size() && wire_out(w, wire_back(w, i)) == i by {
        assert(w.contains(symbol_at(i)));
    }
    assert forall|c: char, k: int| #[trigger] is_first_index(w, c, k) implies k == w.index_of(
        c,
    ) by {
        let j = w.index_of(c);
        assert(w[j] == c);
    }
}

/// Turning an index by `shift` places one way and then the other way gives
/// the index back.
pub proof fn lemma_wrap_round_trip(i: int, shift: int)
    requires
        0 <= i < alphabet_size(),
    ensures
        0 <= wrap(i + shift) < alphabet_size(),
        0 <= wrap(i - shift) < alphabet_size(),
        wrap(wrap(i + shift) - shift) == i,
        wrap(wrap(i - shift) + shift) == i,
{
}

/// Indices that are turned by congruent shifts fall on the same contact.
pub proof fn lemma_wrap_congruent(i: int, shift: int, other: int)
    requires
        wrap(shift) == wrap(other),
    ensures
        wrap(i + shift) == wrap(i + other),
        wrap(i - shift) == wrap(i - other),
{
}

/// A symbol that passes a disk in one direction and then in the other comes
/// out as it went in, whatever the disk's wiring and however it is turned.
pub proof fn lemma_pass_inverse(w: Seq<char>, shift: int, c: char)
    requires
        is_wiring(w),
        is_symbol(c),
    ensures
        is_symbol(pass_forward(w, shift, c)),
        is_symbol(pass_backward(w, shift, c)),
        pass_backward(w, shift, pass_forward(w, shift, c)) == c,
        pass_forward(w, shift, pass_backward(w, shift, c)) == c,
{
    lemma_wire_inverse(w);
    lemma_symbol_index();
    let i = symbol_index(c);
    lemma_wrap_round_trip(i, shift);
    let entry = wrap(i + shift);
    let out = wire_out(w, entry);
    let back = wire_back(w, entry);
    lemma_wrap_round_trip(out, shift);
    lemma_wrap_round_trip(back, shift);
}

/// Only the turn of a disk modulo the size of the alphabet matters.
pub proof fn lemma_pass_congruent(w: Seq<char>, shift: int, other: int, c: char)
    requires
        wrap(shift) == wrap(other),
    ensures
        pass_forward(w, shift, c) == pass_forward(w, other, c),
        pass_backward(w, shift, c) == pass_backward(w, other, c),
{
    let i = symbol_index(c);
    lemma_wrap_congruent(i, shift, other);
    let entry = wrap(i + shift);
    lemma_wrap_congruent(wire_out(w, entry), shift, other);
    lemma_wrap_congruent(wire_back(w, entry), shift, other);
}

} // verus!
