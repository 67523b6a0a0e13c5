//! Region arithmetic of a ring of slots.
//!
//! A ring of `cap` slots with a consumption cursor `head` and a production
//! cursor `tail` holds its live bytes in at most two contiguous spans, and its
//! free slots in at most two contiguous spans. Everything here is a function
//! of the three numbers alone.

use vstd::prelude::*;
use vstd::arithmetic::div_mod::lemma_fundamental_div_mod_converse_mod;

verus! {

/// The slot reached from slot `base` by stepping `offset` places forward,
/// wrapping once past the end. Meant for `base < cap` and `offset <= cap`,
/// where it is `(base + offset) % cap` ([`lemma_ring_index_is_mod`]).
pub open spec fn ring_index(base: nat, offset: nat, cap: nat) -> nat {
    if base + offset < cap {
        base + offset
    } else {
        (base + offset - cap) as nat
    }
}

/// Number of live bytes between the cursors: `(tail - head) mod cap`
/// ([`lemma_live_len_is_mod`]), and 0 for a ring without slots.
pub open spec fn live_len(head: nat, tail: nat, cap: nat) -> nat {
    if tail >= head {
        (tail - head) as nat
    } else {
        (cap - head + tail) as nat
    }
}

/// Lengths of the two live spans, in logical order: the span that starts at
/// `head`, then the span that starts at slot 0 (empty unless the live region
/// wraps).
pub open spec fn data_span_lengths(head: nat, tail: nat, cap: nat) -> (nat, nat) {
    if tail >= head {
        ((tail - head) as nat, 0)
    } else {
        ((cap - head) as nat, tail)
    }
}

/// Lengths of the two free spans, as (span from slot 0 up to `head`, span
/// from `tail` onward). Writing starts in the second component and continues
/// in the first.
pub open spec fn free_span_lengths(head: nat, tail: nat, cap: nat) -> (nat, nat) {
    if tail < head {
        (0, (head - tail) as nat)
    } else {
        (head, (cap - tail) as nat)
    }
}

/// Stepping around the ring is addition modulo the number of slots.
pub proof fn lemma_ring_index_is_mod(base: nat, offset: nat, cap: nat)
    requires
        base < cap,
        offset <= cap,
    ensures
        ring_index(base, offset, cap) == (base + offset) % cap,
        ring_index(base, offset, cap) < cap,
{
    let x = (base + offset) as int;
    let d = cap as int;
    if x < d {
        assert(x == 0 * d + x) by (nonlinear_arith);
        lemma_fundamental_div_mod_converse_mod(x, d, 0, x);
    } else {
        assert(x == 1 * d + (x - d)) by (nonlinear_arith);
        lemma_fundamental_div_mod_converse_mod(x, d, 1, x - d);
    }
}

/// The live length is the cursor distance modulo the number of slots.
pub proof fn lemma_live_len_is_mod(head: nat, tail: nat, cap: nat)
    requires
        head < cap,
        tail < cap,
    ensures
        live_len(head, tail, cap) == (tail - head) % (cap as int),
        live_len(head, tail, cap) < cap,
{
    let x = tail - head;
    let d = cap as int;
    if x >= 0 {
        assert(x == 0 * d + x) by (nonlinear_arith);
        lemma_fundamental_div_mod_converse_mod(x, d, 0, x);
    } else {
        assert(x == (-1) * d + (x + d)) by (nonlinear_arith);
        lemma_fundamental_div_mod_converse_mod(x, d, -1, x + d);
    }
}

/// Stepping from one slot by different distances reaches different slots.
pub proof fn lemma_ring_index_is_injective(base: nat, i: nat, j: nat, cap: nat)
    requires
        base < cap,
        i < cap,
        j < cap,
        ring_index(base, i, cap) == ring_index(base, j, cap),
    ensures
        i == j,
{
}

/// Every slot is reached from every other: slot `p` lies `(p - base) mod
/// cap` places after slot `base`.
pub proof fn lemma_ring_index_reaches(base: nat, p: nat, cap: nat)
    requires
        base < cap,
        p < cap,
    ensures
        live_len(base, p, cap) < cap,
        ring_index(base, live_len(base, p, cap), cap) == p,
{
}

/// A slot is live exactly if it lies fewer than the live length past the
/// head, and free exactly if it lies fewer than the number of free slots past
/// the tail: the two regions share no slot and leave none out.
pub proof fn lemma_slot_is_live_or_free(head: nat, tail: nat, cap: nat, p: nat)
    requires
        head < cap,
        tail < cap,
        p < cap,
    ensures
        live_len(head, p, cap) < live_len(head, tail, cap) <==> !(live_len(tail, p, cap) < cap
            - live_len(head, tail, cap)),
{
}

/// The live spans hold exactly the live bytes, the free spans all other
/// slots, and the tail lies one live length past the head.
pub proof fn lemma_spans_partition(head: nat, tail: nat, cap: nat)
    requires
        head < cap,
        tail < cap,
    ensures
        data_span_lengths(head, tail, cap).0 + data_span_lengths(head, tail, cap).1 == live_len(
            head,
            tail,
            cap,
        ),
        free_span_lengths(head, tail, cap).0 + free_span_lengths(head, tail, cap).1 == cap
            - live_len(head, tail, cap),
        ring_index(head, live_len(head, tail, cap), cap) == tail,
        data_span_lengths(head, tail, cap).1 > 0 ==> free_span_lengths(head, tail, cap).0 == 0,
{
}

} // verus!
