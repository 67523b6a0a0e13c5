//! Histories of operations, and the FIFO law.
//!
//! Whatever is done to a buffer, it holds the bytes that were appended and
//! not yet discarded, in the order in which they were appended.

use vstd::prelude::*;
use crate::state::{
    RingState,
    lemma_reserve,
    lemma_extend,
    lemma_extend_from_within,
    lemma_drain,
    lemma_clear,
};

verus! {

/// One operation on a buffer.
pub enum Op {
    /// Make room for so many bytes.
    Reserve(nat),
    /// Append these bytes.
    Extend(Seq<u8>),
    /// Append a copy of the live bytes at this logical offset, of this
    /// length.
    ExtendFromWithin(nat, nat),
    /// Discard so many of the oldest bytes, or all of them.
    Drain(nat),
    /// Discard all bytes.
    Clear,
}

/// The operation may be applied in state `s`.
pub open spec fn admits(s: RingState, op: Op) -> bool {
    match op {
        Op::Reserve(amount) => s.can_reserve(amount),
        Op::Extend(data) => s.can_reserve(data.len()),
        Op::ExtendFromWithin(start, len) => s.holds_range(start, len) && s.can_reserve(len),
        Op::Drain(_) => true,
        Op::Clear => true,
    }
}

/// The state that the operation leaves.
pub open spec fn step(s: RingState, op: Op) -> RingState {
    match op {
        Op::Reserve(amount) => s.reserve(amount),
        Op::Extend(data) => s.extend(data),
        Op::ExtendFromWithin(start, len) => s.extend_from_within(start, len),
        Op::Drain(amount) => s.drain(amount),
        Op::Clear => s.clear(),
    }
}

/// The bytes that the operation appends in state `s`.
pub open spec fn appends(s: RingState, op: Op) -> Seq<u8> {
    match op {
        Op::Extend(data) => data,
        Op::ExtendFromWithin(start, len) => s.content.subrange(start as int, (start + len) as int),
        _ => Seq::empty(),
    }
}

/// The number of bytes that the operation discards in state `s`.
pub open spec fn discards(s: RingState, op: Op) -> nat {
    match op {
        Op::Drain(amount) => s.drain_len(amount),
        Op::Clear => s.content.len(),
        _ => 0,
    }
}

/// The state of a new buffer after the operations `ops`, in order.
pub open spec fn run(ops: Seq<Op>) -> RingState
    decreases ops.len(),
{
    if ops.len() == 0 {
        RingState::empty()
    } else {
        step(run(ops.drop_last()), ops.last())
    }
}

/// Every operation of `ops` may be applied in the state that it meets.
pub open spec fn admissible(ops: Seq<Op>) -> bool
    decreases ops.len(),
{
    ops.len() > 0 ==> admissible(ops.drop_last()) && admits(run(ops.drop_last()), ops.last())
}

/// All bytes that `ops` append to a new buffer, in order.
pub open spec fn appended(ops: Seq<Op>) -> Seq<u8>
    decreases ops.len(),
{
    if ops.len() == 0 {
        Seq::empty()
    } else {
        appended(ops.drop_last()) + appends(run(ops.drop_last()), ops.last())
    }
}

/// The number of bytes that `ops` discard from a new buffer.
pub open spec fn discarded(ops: Seq<Op>) -> nat
    decreases ops.len(),
{
    if ops.len() == 0 {
        0
    } else {
        discarded(ops.drop_last()) + discards(run(ops.drop_last()), ops.last())
    }
}

/// Operations that may be applied lead from valid states to valid states.
pub proof fn lemma_step_wf(s: RingState, op: Op)
    requires
        s.wf(),
        admits(s, op),
    ensures
        step(s, op).wf(),
{
    match op {
        Op::Reserve(amount) => lemma_reserve(s, amount),
        Op::Extend(data) => lemma_extend(s, data),
        Op::ExtendFromWithin(start, len) => lemma_extend_from_within(s, start, len),
        Op::Drain(amount) => lemma_drain(s, amount),
        Op::Clear => lemma_clear(s),
    }
}

/// A history of operations that may be applied ends in a valid state.
pub proof fn lemma_run_wf(ops: Seq<Op>)
    requires
        admissible(ops),
    ensures
        run(ops).wf(),
    decreases ops.len(),
{
    if ops.len() > 0 {
        lemma_run_wf(ops.drop_last());
        lemma_step_wf(run(ops.drop_last()), ops.last());
    }
}

/// One operation appends at the back and discards at the front.
pub proof fn lemma_step_content(s: RingState, op: Op)
    ensures
        discards(s, op) <= s.content.len(),
        step(s, op).content == s.content.skip(discards(s, op) as int) + appends(s, op),
{
    let kept = s.content.skip(discards(s, op) as int);
    assert(step(s, op).content =~= kept + appends(s, op));
}

/// The FIFO law: after any history, the buffer holds all bytes appended so
/// far but for those discarded, which are the oldest, and holds them in the
/// order of their appending.
pub proof fn lemma_fifo(ops: Seq<Op>)
    ensures
        discarded(ops) <= appended(ops).len(),
        run(ops).content == appended(ops).skip(discarded(ops) as int),
    decreases ops.len(),
{
    if ops.len() == 0 {
        assert(run(ops).content =~= appended(ops).skip(0));
    } else {
        let before = run(ops.drop_last());
        let op = ops.last();
        lemma_fifo(ops.drop_last());
        lemma_step_content(before, op);
        let all = appended(ops.drop_last());
        let gone = discarded(ops.drop_last());
        assert(run(ops).content =~= (all + appends(before, op)).skip(
            (gone + discards(before, op)) as int,
        ));
    }
}

} // verus!
