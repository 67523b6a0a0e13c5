//! The growable ring buffer.

use vstd::prelude::*;
use crate::region::{
    ring_index,
    live_len,
    lemma_ring_index_is_mod,
};
use crate::state::{
    RingState,
    lemma_reserve,
};
use crate::growth::checked_grown_capacity;
use crate::error::RingBufferError;
use crate::block::{
    write_block,
    copy_block,
};
use crate::plan::{
    CopySegment,
    copy_plan,
    plan_is_faithful,
    replayed,
    segment_start,
    lemma_copy_segment,
};

verus! {

/// A growable FIFO of bytes on one contiguous backing store.
///
/// Bytes are appended at the tail and discarded from the head; neither moves
/// any byte already stored. The store is replaced by a larger one when an
/// append would leave no slot free.
pub struct RingBuffer {
    buf: Vec<u8>,
    head: usize,
    tail: usize,
}

impl View for RingBuffer {
    type V = Seq<u8>;

    /// The live bytes, oldest first.
    open spec fn view(&self) -> Seq<u8> {
        self.state().content
    }
}

impl RingBuffer {
    /// The representation is consistent: both cursors are slots of the
    /// store, and the store is addressable.
    pub closed spec fn wf(&self) -> bool {
        &&& self.buf@.len() <= isize::MAX
        &&& if self.buf@.len() == 0 {
            self.head == 0 && self.tail == 0
        } else {
            self.head < self.buf@.len() && self.tail < self.buf@.len()
        }
    }

    /// The abstract state: content, head slot and number of slots.
    pub closed spec fn state(&self) -> RingState {
        RingState {
            content: Seq::new(
                live_len(self.head as nat, self.tail as nat, self.buf@.len()),
                |i: int| self.buf@[ring_index(self.head as nat, i as nat, self.buf@.len()) as int],
            ),
            head: self.head as nat,
            capacity: self.buf@.len(),
        }
    }

    /// The bytes of the backing store, slot by slot, live or not.
    pub closed spec fn storage(&self) -> Seq<u8> {
        self.buf@
    }

    /// A consistent buffer is in a valid abstract state, and its content is
    /// what the store holds from the head slot onward, wrapping at the end.
    pub proof fn lemma_state_wf(&self)
        requires
            self.wf(),
        ensures
            self.state().wf(),
            self.storage().len() == self.state().capacity,
            forall|i: nat|
                i < self@.len() ==> self@[i as int] == self.storage()[#[trigger] ring_index(
                    self.state().head,
                    i,
                    self.state().capacity,
                ) as int],
    {
    }

    proof fn lemma_cursors(&self)
        requires
            self.wf(),
        ensures
            self.state().wf(),
            self.state().tail() == self.tail,
            self.state().head == self.head,
            self.state().capacity == self.buf@.len(),
            self.state().content.len() == live_len(
                self.head as nat,
                self.tail as nat,
                self.buf@.len(),
            ),
    {
    }

    /// An empty buffer; nothing is allocated.
    pub fn new() -> (rb: Self)
        ensures
            rb.wf(),
            rb.state() == RingState::empty(),
            rb@ == Seq::<u8>::empty(),
    {
        let rb = RingBuffer { buf: Vec::new(), head: 0, tail: 0 };
        assert(rb.state().content =~= Seq::<u8>::empty());
        rb
    }

    /// Number of live bytes.
    pub fn len(&self) -> (n: usize)
        requires
            self.wf(),
        ensures
            n == self@.len(),
    {
        let (x, y): (usize, usize) = self.data_slice_lengths();
        proof {
            self.lemma_cursors();
        }
        x + y
    }

    /// Whether no byte is live.
    pub fn is_empty(&self) -> (b: bool)
        requires
            self.wf(),
        ensures
            b == (self@.len() == 0),
    {
        proof {
            self.lemma_cursors();
        }
        self.head == self.tail
    }

    /// Lengths of the two live spans, in logical order: the bytes from the
    /// head slot onward, then the bytes from slot 0 onward.
    pub fn data_slice_lengths(&self) -> (r: (usize, usize))
        requires
            self.wf(),
        ensures
            r.0 == self.state().data_span_lengths().0,
            r.1 == self.state().data_span_lengths().1,
            r.0 + r.1 == self@.len(),
    {
        proof {
            self.lemma_cursors();
        }
        if self.tail >= self.head {
            (self.tail - self.head, 0)
        } else {
            (self.buf.len() - self.head, self.tail)
        }
    }

    /// Lengths of the two free spans, as (free slots before the head, free
    /// slots from the tail onward). Appends fill the second, then the first.
    pub fn free_slice_lengths(&self) -> (r: (usize, usize))
        requires
            self.wf(),
        ensures
            r.0 == self.state().free_span_lengths().0,
            r.1 == self.state().free_span_lengths().1,
            r.0 + r.1 == self.state().capacity - self@.len(),
    {
        proof {
            self.lemma_cursors();
        }
        if self.tail < self.head {
            (0, self.head - self.tail)
        } else {
            (self.head, self.buf.len() - self.tail)
        }
    }

    /// The two live spans as (first slot, length), in logical order.
    pub fn data_slice_parts(&self) -> (r: ((usize, usize), (usize, usize)))
        requires
            self.wf(),
        ensures
            r.0.0 == self.state().head,
            r.0.1 == self.state().data_span_lengths().0,
            r.1.0 == 0,
            r.1.1 == self.state().data_span_lengths().1,
    {
        let (len_after_head, len_to_tail): (usize, usize) = self.data_slice_lengths();
        proof {
            self.lemma_cursors();
        }
        ((self.head, len_after_head), (0, len_to_tail))
    }

    /// The two free spans as (first slot, length), in the order in which
    /// appends fill them: from the tail onward, then from slot 0 onward.
    pub fn free_slice_parts(&self) -> (r: ((usize, usize), (usize, usize)))
        requires
            self.wf(),
        ensures
            r.0.0 == self.state().tail(),
            r.0.1 == self.state().free_span_lengths().1,
            r.1.0 == 0,
            r.1.1 == self.state().free_span_lengths().0,
    {
        let (len_to_head, len_after_tail): (usize, usize) = self.free_slice_lengths();
        proof {
            self.lemma_cursors();
        }
        ((self.tail, len_after_tail), (0, len_to_head))
    }

    /// The live bytes as two read-only spans, in logical order; the second
    /// is empty unless the live region wraps around the end of the store.
    pub fn data_slices(&self) -> (r: (&[u8], &[u8]))
        requires
            self.wf(),
        ensures
            r.0@ == self@.subrange(0, self.state().data_span_lengths().0 as int),
            r.1@ == self@.subrange(
                self.state().data_span_lengths().0 as int,
                self@.len() as int,
            ),
            r.0@ + r.1@ == self@,
            r.0@ == self.storage().subrange(
                self.state().head as int,
                (self.state().head + self.state().data_span_lengths().0) as int,
            ),
            r.1@ == self.storage().subrange(0, self.state().data_span_lengths().1 as int),
    {
        let (s1, s2): ((usize, usize), (usize, usize)) = self.data_slice_parts();
        proof {
            self.lemma_cursors();
        }
        let store: &[u8] = self.buf.as_slice();
        let first: &[u8] = &store[s1.0..s1.0 + s1.1];
        let second: &[u8] = &store[s2.0..s2.0 + s2.1];
        proof {
            assert(first@ =~= self@.subrange(0, s1.1 as int));
            assert(second@ =~= self@.subrange(s1.1 as int, self@.len() as int));
            assert(first@ + second@ =~= self@);
        }
        (first, second)
    }

    /// Replaces the store by one of `new_cap` slots, with the live bytes
    /// copied span by span, in logical order, to its start.
    fn relocate(&mut self, new_cap: usize)
        requires
            old(self).wf(),
            new_cap > old(self)@.len(),
            new_cap <= isize::MAX,
        ensures
            final(self).wf(),
            final(self).state() == (RingState {
                content: old(self)@,
                head: 0,
                capacity: new_cap as nat,
            }),
    {
        let mut grown: Vec<u8> = Vec::with_capacity(new_cap);
        let (first, second): (&[u8], &[u8]) = self.data_slices();
        grown.extend_from_slice(first);
        grown.extend_from_slice(second);
        let live: usize = grown.len();
        assert(grown@ =~= self@);
        grown.resize(new_cap, 0u8);
        let ghost content = self@;
        self.buf = grown;
        self.head = 0;
        self.tail = live;
        proof {
            assert(self.state().content =~= content);
        }
    }

    /// Ensures that `amount` bytes can be appended without the store
    /// filling up: afterwards more than `amount` slots are free. Does nothing
    /// if that is so already; otherwise moves the live bytes to a larger store.
    pub fn reserve(&mut self, amount: usize)
        requires
            old(self).wf(),
            old(self).state().can_reserve(amount as nat),
        ensures
            final(self).wf(),
            final(self).state() == old(self).state().reserve(amount as nat),
            final(self)@ == old(self)@,
            final(self).state().capacity - final(self)@.len() > amount,
    {
        proof {
            self.lemma_cursors();
            lemma_reserve(self.state(), amount as nat);
        }
        let cap: usize = self.buf.len();
        if cap - self.len() > amount {
            return;
        }
        let new_cap: usize = checked_grown_capacity(cap, amount).unwrap();
        self.relocate(new_cap);
    }

    /// Appends `data` behind the live bytes, growing the store if needed.
    pub fn extend(&mut self, data: &[u8])
        requires
            old(self).wf(),
            old(self).state().can_reserve(data@.len()),
        ensures
            final(self).wf(),
            final(self).state() == old(self).state().extend(data@),
            final(self)@ == old(self)@ + data@,
    {
        let len: usize = data.len();
        self.reserve(len);
        let (f1, f2): ((usize, usize), (usize, usize)) = self.free_slice_parts();
        let in_f1: usize = if len <= f1.1 {
            len
        } else {
            f1.1
        };
        let in_f2: usize = len - in_f1;
        let ghost roomy = *self;
        proof {
            self.lemma_cursors();
            assert(in_f2 <= f2.1);
        }
        write_block(&mut self.buf, f1.0, data, 0, in_f1);
        write_block(&mut self.buf, f2.0, data, in_f1, in_f2);
        let cap: usize = self.buf.len();
        proof {
            lemma_ring_index_is_mod(self.tail as nat, len as nat, cap as nat);
        }
        self.tail = (self.tail + len) % cap;
        proof {
            assert(self.state().content =~= roomy.state().content + data@);
        }
    }

    /// Appends a copy of the `len` live bytes that begin at logical offset
    /// `start`, growing the store if needed. The bytes copied are those that
    /// were live before the call.
    pub fn extend_from_within(&mut self, start: usize, len: usize)
        requires
            old(self).wf(),
            old(self).state().holds_range(start as nat, len as nat),
            old(self).state().can_reserve(len as nat),
        ensures
            final(self).wf(),
            final(self).state() == old(self).state().extend_from_within(start as nat, len as nat),
            final(self)@ == old(self)@ + old(self)@.subrange(start as int, start + len),
    {
        self.reserve(len);
        proof {
            self.lemma_cursors();
        }
        let cap: usize = self.buf.len();
        let plan: [CopySegment; 4] = copy_plan(self.head, self.tail, cap, start, len);
        let ghost roomy = *self;
        let mut k: usize = 0;
        while k < 4
            invariant
                k <= 4,
                self.head == roomy.head,
                self.tail == roomy.tail,
                roomy.wf(),
                crate::plan::plannable(
                    roomy.head as nat,
                    roomy.tail as nat,
                    cap as nat,
                    start as nat,
                    len as nat,
                ),
                plan_is_faithful(
                    plan@,
                    roomy.head as nat,
                    roomy.tail as nat,
                    cap as nat,
                    start as nat,
                    len as nat,
                ),
                replayed(
                    self.buf@,
                    roomy.buf@,
                    roomy.head as nat,
                    roomy.tail as nat,
                    cap as nat,
                    start as nat,
                    segment_start(plan@, k as int),
                ),
            decreases 4 - k,
        {
            let seg: CopySegment = plan[k];
            let ghost stored = self.buf@;
            proof {
                reveal_with_fuel(segment_start, 5);
                assert(seg == plan@[k as int]);
            }
            copy_block(&mut self.buf, seg.src, seg.dst, seg.len);
            proof {
                lemma_copy_segment(
                    stored,
                    self.buf@,
                    roomy.buf@,
                    seg,
                    roomy.head as nat,
                    roomy.tail as nat,
                    cap as nat,
                    start as nat,
                    len as nat,
                    segment_start(plan@, k as int),
                );
            }
            k = k + 1;
        }
        proof {
            lemma_ring_index_is_mod(self.tail as nat, len as nat, cap as nat);
        }
        self.tail = (self.tail + len) % cap;
        proof {
            let content = roomy.state().content;
            let wanted = content + content.subrange(start as int, start + len);
            let head = roomy.head as nat;
            let tail = roomy.tail as nat;
            let live = content.len();
            assert(self.state().content.len() == wanted.len());
            assert forall|i: int| 0 <= i < wanted.len() implies self.state().content[i]
                == wanted[i] by {
                if i < live {
                    assert(self.buf@[ring_index(head, i as nat, cap as nat) as int]
                        == roomy.buf@[ring_index(head, i as nat, cap as nat) as int]);
                } else {
                    let t = (i - live) as nat;
                    assert(ring_index(head, i as nat, cap as nat) == ring_index(
                        tail,
                        t,
                        cap as nat,
                    ));
                    assert(self.buf@[ring_index(tail, t, cap as nat) as int]
                        == roomy.buf@[ring_index(head, start as nat + t, cap as nat) as int]);
                }
            }
            assert(self.state().content =~= wanted);
        }
    }

    /// As [`RingBuffer::reserve`], for any `amount`: where the store cannot
    /// grow as far as needed, the buffer is left as it was and the refusal is
    /// reported.
    pub fn try_reserve(&mut self, amount: usize) -> (r: Result<(), RingBufferError>)
        requires
            old(self).wf(),
        ensures
            final(self).wf(),
            r.is_ok() <==> old(self).state().can_reserve(amount as nat),
            r.is_ok() ==> final(self).state() == old(self).state().reserve(amount as nat),
            r.is_ok() ==> final(self)@ == old(self)@,
            r.is_err() ==> r == Err::<(), RingBufferError>(RingBufferError::CapacityOverflow),
            r.is_err() ==> *final(self) == *old(self),
    {
        proof {
            self.lemma_cursors();
            if self.state().can_reserve(amount as nat) {
                lemma_reserve(self.state(), amount as nat);
            }
        }
        let cap: usize = self.buf.len();
        if cap - self.len() > amount {
            return Ok(());
        }
        match checked_grown_capacity(cap, amount) {
            None => Err(RingBufferError::CapacityOverflow),
            Some(new_cap) => {
                self.relocate(new_cap);
                Ok(())
            },
        }
    }

    /// As [`RingBuffer::extend`], for any `data`: where the store cannot
    /// grow as far as needed, the buffer is left as it was and the refusal is
    /// reported.
    pub fn try_extend(&mut self, data: &[u8]) -> (r: Result<(), RingBufferError>)
        requires
            old(self).wf(),
        ensures
            final(self).wf(),
            r.is_ok() <==> old(self).state().can_reserve(data@.len()),
            r.is_ok() ==> final(self).state() == old(self).state().extend(data@),
            r.is_ok() ==> final(self)@ == old(self)@ + data@,
            r.is_err() ==> r == Err::<(), RingBufferError>(RingBufferError::CapacityOverflow),
            r.is_err() ==> *final(self) == *old(self),
    {
        proof {
            self.lemma_cursors();
            if self.state().can_reserve(data@.len()) {
                lemma_reserve(self.state(), data@.len());
            }
        }
        match self.try_reserve(data.len()) {
            Err(e) => Err(e),
            Ok(()) => {
                self.extend(data);
                Ok(())
            },
        }
    }

    /// As [`RingBuffer::extend_from_within`], for any `start` and `len`: a
    /// source range that is not wholly live is refused, and so is a copy for
    /// which the store cannot grow as far as needed. A refusal leaves the
    /// buffer as it was.
    pub fn try_extend_from_within(&mut self, start: usize, len: usize) -> (r: Result<
        (),
        RingBufferError,
    >)
        requires
            old(self).wf(),
        ensures
            final(self).wf(),
            r.is_ok() <==> old(self).state().holds_range(start as nat, len as nat) && old(
                self,
            ).state().can_reserve(len as nat),
            r.is_ok() ==> final(self).state() == old(self).state().extend_from_within(
                start as nat,
                len as nat,
            ),
            r.is_ok() ==> final(self)@ == old(self)@ + old(self)@.subrange(
                start as int,
                start + len,
            ),
            r == Err::<(), RingBufferError>(RingBufferError::OutOfRange) <==> !old(
                self,
            ).state().holds_range(start as nat, len as nat),
            r == Err::<(), RingBufferError>(RingBufferError::CapacityOverflow) <==> old(
                self,
            ).state().holds_range(start as nat, len as nat) && !old(self).state().can_reserve(
                len as nat,
            ),
            r.is_err() ==> *final(self) == *old(self),
    {
        proof {
            self.lemma_cursors();
            if self.state().can_reserve(len as nat) {
                lemma_reserve(self.state(), len as nat);
            }
        }
        let live: usize = self.len();
        if start > live || len > live - start {
            return Err(RingBufferError::OutOfRange);
        }
        match self.try_reserve(len) {
            Err(e) => Err(e),
            Ok(()) => {
                self.extend_from_within(start, len);
                Ok(())
            },
        }
    }

    /// Discards the `amount` oldest bytes, or all of them if fewer are
    /// live. No byte is moved or cleared.
    pub fn drain(&mut self, amount: usize)
        requires
            old(self).wf(),
        ensures
            final(self).wf(),
            final(self).state() == old(self).state().drain(amount as nat),
            final(self)@ == old(self)@.skip(old(self).state().drain_len(amount as nat) as int),
            final(self).storage() == old(self).storage(),
    {
        let live: usize = self.len();
        let n: usize = if amount <= live {
            amount
        } else {
            live
        };
        let cap: usize = self.buf.len();
        proof {
            self.lemma_cursors();
        }
        if cap > 0 {
            proof {
                lemma_ring_index_is_mod(self.head as nat, n as nat, cap as nat);
            }
            self.head = (self.head + n) % cap;
        }
        proof {
            assert(self.state().content =~= old(self).state().drain(amount as nat).content);
        }
    }

    /// Discards every byte and rewinds both cursors to slot 0. The store
    /// is kept.
    pub fn clear(&mut self)
        requires
            old(self).wf(),
        ensures
            final(self).wf(),
            final(self).state() == old(self).state().clear(),
            final(self)@ == Seq::<u8>::empty(),
            final(self).storage() == old(self).storage(),
    {
        self.head = 0;
        self.tail = 0;
        proof {
            assert(self.state().content =~= Seq::<u8>::empty());
        }
    }
}

} // verus!
