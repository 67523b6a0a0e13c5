//! The abstract state of a ring buffer and what each operation does to it.
//!
//! A buffer is fully described, as far as any caller can observe, by the
//! bytes it holds in order, the slot of the oldest byte, and the number of
//! slots. The operations are functions on that triple; the executable buffer
//! is proved to follow them.

use vstd::prelude::*;
use crate::growth::{
    grown_capacity,
    lemma_grown_capacity_bounds,
};
use crate::region::{
    ring_index,
    live_len,
    data_span_lengths,
    free_span_lengths,
};

verus! {

/// What a ring buffer is, to its callers.
pub struct RingState {
    /// The live bytes, oldest first.
    pub content: Seq<u8>,
    /// Slot of the oldest live byte.
    pub head: nat,
    /// Number of slots in the backing store.
    pub capacity: nat,
}

impl RingState {
    /// The state of a buffer that was never written to.
    pub open spec fn empty() -> RingState {
        RingState { content: Seq::empty(), head: 0, capacity: 0 }
    }

    /// A state that a buffer can be in: the store is addressable, the head
    /// is a slot of it, and at least one slot is free unless there is none at
    /// all.
    pub open spec fn wf(self) -> bool {
        &&& self.capacity <= isize::MAX
        &&& if self.capacity == 0 {
            self.head == 0 && self.content.len() == 0
        } else {
            self.head < self.capacity && self.content.len() < self.capacity
        }
    }

    /// Slot one past the newest live byte.
    pub open spec fn tail(self) -> nat {
        ring_index(self.head, self.content.len(), self.capacity)
    }

    /// Lengths of the two live spans, in logical order.
    pub open spec fn data_span_lengths(self) -> (nat, nat) {
        data_span_lengths(self.head, self.tail(), self.capacity)
    }

    /// Lengths of the two free spans, as (before the head, after the tail).
    pub open spec fn free_span_lengths(self) -> (nat, nat) {
        free_span_lengths(self.head, self.tail(), self.capacity)
    }

    /// Fewer than `amount + 1` slots are free, so room for `amount` bytes
    /// and the slack slot has to be made.
    pub open spec fn needs_growth(self, amount: nat) -> bool {
        self.capacity - self.content.len() <= amount
    }

    /// Room for `amount` more bytes is there, or can be made without the
    /// store outgrowing the signed address range.
    pub open spec fn can_reserve(self, amount: nat) -> bool {
        self.needs_growth(amount) ==> grown_capacity(self.capacity, amount) <= isize::MAX
    }

    /// Makes room for `amount` more bytes. A store that grows is laid out
    /// afresh, with the oldest byte in slot 0.
    pub open spec fn reserve(self, amount: nat) -> RingState {
        if self.needs_growth(amount) {
            RingState {
                content: self.content,
                head: 0,
                capacity: grown_capacity(self.capacity, amount),
            }
        } else {
            self
        }
    }

    /// Appends `data`.
    pub open spec fn extend(self, data: Seq<u8>) -> RingState {
        let roomy = self.reserve(data.len());
        RingState { content: roomy.content + data, ..roomy }
    }

    /// The bytes at logical offsets `start .. start + len` are live.
    pub open spec fn holds_range(self, start: nat, len: nat) -> bool {
        start + len <= self.content.len()
    }

    /// Appends a copy of the `len` live bytes that begin at logical offset
    /// `start`.
    pub open spec fn extend_from_within(self, start: nat, len: nat) -> RingState {
        let roomy = self.reserve(len);
        RingState {
            content: roomy.content + roomy.content.subrange(start as int, (start + len) as int),
            ..roomy
        }
    }

    /// Number of bytes that a request to drain `amount` discards.
    pub open spec fn drain_len(self, amount: nat) -> nat {
        if amount <= self.content.len() {
            amount
        } else {
            self.content.len()
        }
    }

    /// Discards the `amount` oldest bytes, or all of them if there are
    /// fewer.
    pub open spec fn drain(self, amount: nat) -> RingState {
        let n = self.drain_len(amount);
        RingState {
            content: self.content.skip(n as int),
            head: ring_index(self.head, n, self.capacity),
            capacity: self.capacity,
        }
    }

    /// Discards everything and rewinds to slot 0; the store is kept.
    pub open spec fn clear(self) -> RingState {
        RingState { content: Seq::empty(), head: 0, capacity: self.capacity }
    }
}

/// The cursors and the content agree: the tail is a slot, and the cursor
/// distance is the number of live bytes.
pub proof fn lemma_tail(s: RingState)
    requires
        s.wf(),
    ensures
        s.capacity == 0 ==> s.tail() == 0,
        s.capacity > 0 ==> s.tail() < s.capacity,
        live_len(s.head, s.tail(), s.capacity) == s.content.len(),
        s.data_span_lengths().0 + s.data_span_lengths().1 == s.content.len(),
        s.free_span_lengths().0 + s.free_span_lengths().1 == s.capacity - s.content.len(),
{
}

/// A buffer is never full: with any slots at all, one stays free, so that
/// equal cursors can only mean an empty buffer.
pub proof fn lemma_never_full(s: RingState)
    requires
        s.wf(),
    ensures
        s.capacity > 0 ==> s.content.len() < s.capacity,
        s.content.len() == 0 <==> s.tail() == s.head,
{
}

/// Reserving keeps the content, keeps the state valid and leaves more than
/// `amount` slots free.
pub proof fn lemma_reserve(s: RingState, amount: nat)
    requires
        s.wf(),
        s.can_reserve(amount),
    ensures
        s.reserve(amount).wf(),
        s.reserve(amount).content == s.content,
        s.reserve(amount).capacity - s.reserve(amount).content.len() > amount,
        s.reserve(amount).capacity >= s.capacity,
        !s.reserve(amount).needs_growth(amount),
        s.reserve(amount).reserve(amount) == s.reserve(amount),
{
    lemma_grown_capacity_bounds(s.capacity, amount);
}

/// Requests that are small against the address range can always be
/// served, whatever the number of slots at the time.
pub proof fn lemma_small_requests_fit(s: RingState, amount: nat)
    requires
        s.wf(),
        2 * (s.content.len() + 2 * amount + 1) <= isize::MAX,
    ensures
        s.can_reserve(amount),
{
    lemma_grown_capacity_bounds(s.capacity, amount);
}

/// Appending keeps the state valid and puts the new bytes behind the old.
pub proof fn lemma_extend(s: RingState, data: Seq<u8>)
    requires
        s.wf(),
        s.can_reserve(data.len()),
    ensures
        s.extend(data).wf(),
        s.extend(data).content == s.content + data,
        s.extend(data).content.len() == s.content.len() + data.len(),
{
    lemma_reserve(s, data.len());
}

/// A self-copy keeps the state valid and appends the named slice of the
/// content as it was before the call.
pub proof fn lemma_extend_from_within(s: RingState, start: nat, len: nat)
    requires
        s.wf(),
        s.holds_range(start, len),
        s.can_reserve(len),
    ensures
        s.extend_from_within(start, len).wf(),
        s.extend_from_within(start, len).content == s.content + s.content.subrange(
            start as int,
            (start + len) as int,
        ),
        s.extend_from_within(start, len).content.len() == s.content.len() + len,
{
    lemma_reserve(s, len);
}

/// A self-copy of nothing is a reservation of nothing.
pub proof fn lemma_extend_from_within_nothing(s: RingState, start: nat)
    requires
        s.wf(),
        s.holds_range(start, 0),
    ensures
        s.extend_from_within(start, 0) == s.reserve(0),
{
    assert(s.content + s.content.subrange(start as int, start as int) =~= s.content);
}

/// A self-copy of the whole content doubles it.
pub proof fn lemma_extend_from_within_everything(s: RingState)
    requires
        s.wf(),
    ensures
        s.extend_from_within(0, s.content.len()).content == s.content + s.content,
{
    assert(s.content.subrange(0, s.content.len() as int) =~= s.content);
}

/// Draining keeps the state valid and the store, and drops bytes from the
/// front only.
pub proof fn lemma_drain(s: RingState, amount: nat)
    requires
        s.wf(),
    ensures
        s.drain(amount).wf(),
        s.drain(amount).capacity == s.capacity,
        s.drain(amount).tail() == s.tail(),
        s.drain(amount).content.len() == s.content.len() - s.drain_len(amount),
        s.drain(amount).content == s.content.subrange(
            s.drain_len(amount) as int,
            s.content.len() as int,
        ),
{
}

/// Draining more than is held is draining all that is held.
pub proof fn lemma_drain_saturates(s: RingState, amount: nat)
    requires
        amount >= s.content.len(),
    ensures
        s.drain(amount) == s.drain(s.content.len()),
        s.drain(amount).content == Seq::<u8>::empty(),
{
    assert(s.content.skip(s.content.len() as int) =~= Seq::<u8>::empty());
}

/// Draining in two steps is draining the sum at once.
pub proof fn lemma_drain_twice(s: RingState, a: nat, b: nat)
    requires
        s.wf(),
    ensures
        s.drain(a).drain(b) == s.drain(a + b),
{
    let na = s.drain_len(a);
    let nb = s.drain(a).drain_len(b);
    assert(s.content.skip(na as int).skip(nb as int) =~= s.content.skip((na + nb) as int));
}

/// Clearing empties the buffer as draining everything does, and keeps the
/// state valid.
pub proof fn lemma_clear(s: RingState)
    requires
        s.wf(),
    ensures
        s.clear().wf(),
        s.clear().content == s.drain(s.content.len()).content,
        s.clear().capacity == s.capacity,
        s.clear().tail() == 0,
{
    lemma_drain_saturates(s, s.content.len());
}

} // verus!
