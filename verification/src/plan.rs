//! Planning a self-referential append.
//!
//! Appending a copy of live bytes to the tail reads from the live region and
//! writes to the free region. Either may wrap around the end of the store, so
//! the copy is cut into runs that are contiguous on both sides. The plan is a
//! function of the cursors and the request alone.

use vstd::prelude::*;
use crate::block::block_written;
use crate::region::{
    ring_index,
    live_len,
    data_span_lengths,
    free_span_lengths,
};

verus! {

/// One block copy within the store: `len` bytes from slot `src` onward to
/// slot `dst` onward.
#[derive(Clone, Copy, Debug, PartialEq, Eq, Structural)]
pub struct CopySegment {
    pub src: usize,
    pub dst: usize,
    pub len: usize,
}

/// The smaller of two numbers.
pub open spec fn lesser(a: nat, b: nat) -> nat {
    if a <= b {
        a
    } else {
        b
    }
}

/// The four block copies that append the `len` live bytes from logical
/// offset `start`, in this order: from the first live span into the free span
/// behind the tail; from the second live span into what that free span has
/// left; from the first live span into the free span at slot 0; from the
/// second live span into what is left there.
pub open spec fn planned_segments(
    head: nat,
    tail: nat,
    cap: nat,
    start: nat,
    len: nat,
) -> Seq<CopySegment> {
    let s1 = data_span_lengths(head, tail, cap).0;
    let f1 = free_span_lengths(head, tail, cap).1;
    let start_in_s1 = lesser(s1, start);
    let m1 = (lesser(s1, start + len) - start_in_s1) as nat;
    let start_in_s2 = (start - start_in_s1) as nat;
    let m2 = (len - m1) as nat;
    let m1_in_f1 = lesser(m1, f1);
    let m1_in_f2 = (m1 - m1_in_f1) as nat;
    let m2_in_f1 = lesser((f1 - m1_in_f1) as nat, m2);
    let m2_in_f2 = (m2 - m2_in_f1) as nat;
    seq![
        CopySegment { src: (head + start_in_s1) as usize, dst: tail as usize, len: m1_in_f1 as usize },
        CopySegment {
            src: start_in_s2 as usize,
            dst: (tail + m1_in_f1) as usize,
            len: m2_in_f1 as usize,
        },
        CopySegment {
            src: (head + start_in_s1 + m1_in_f1) as usize,
            dst: 0,
            len: m1_in_f2 as usize,
        },
        CopySegment {
            src: (start_in_s2 + m2_in_f1) as usize,
            dst: m1_in_f2 as usize,
            len: m2_in_f2 as usize,
        },
    ]
}

/// The request can be planned: the cursors are slots, the source range is
/// live, and the copy leaves a slot free.
pub open spec fn plannable(head: nat, tail: nat, cap: nat, start: nat, len: nat) -> bool {
    &&& head < cap
    &&& tail < cap
    &&& start + len <= live_len(head, tail, cap)
    &&& live_len(head, tail, cap) + len < cap
}

/// The segment copies the bytes at positions `at .. at + seg.len` of the
/// request as one run that is contiguous at the source and at the
/// destination, and the two runs do not overlap.
pub open spec fn segment_is_run(
    seg: CopySegment,
    head: nat,
    tail: nat,
    cap: nat,
    start: nat,
    at: nat,
) -> bool {
    &&& seg.src + seg.len <= cap
    &&& seg.dst + seg.len <= cap
    &&& seg.src + seg.len <= seg.dst || seg.dst + seg.len <= seg.src
    &&& seg.len > 0 ==> seg.src == ring_index(head, start + at, cap)
    &&& seg.len > 0 ==> seg.dst == ring_index(tail, at, cap)
}

/// Position within the request at which segment `k` begins: the total length
/// of the segments before it.
pub open spec fn segment_start(plan: Seq<CopySegment>, k: int) -> nat
    decreases k,
{
    if k <= 0 {
        0
    } else {
        segment_start(plan, k - 1) + plan[k - 1].len as nat
    }
}

/// The plan carries out the request: its four segments, one after another,
/// are runs that together copy logical source offsets `start .. start + len`
/// to the `len` logical positions behind the live bytes.
pub open spec fn plan_is_faithful(
    plan: Seq<CopySegment>,
    head: nat,
    tail: nat,
    cap: nat,
    start: nat,
    len: nat,
) -> bool {
    &&& plan.len() == 4
    &&& segment_start(plan, 4) == len
    &&& forall|k: int|
        0 <= k < 4 ==> segment_is_run(
            #[trigger] plan[k],
            head,
            tail,
            cap,
            start,
            segment_start(plan, k),
        )
}

/// Within a segment that is a run, byte `t` goes from the slot of its
/// logical source offset to the slot of its logical destination offset.
pub proof fn lemma_run_bytes(
    seg: CopySegment,
    head: nat,
    tail: nat,
    cap: nat,
    start: nat,
    at: nat,
    t: nat,
)
    requires
        segment_is_run(seg, head, tail, cap, start, at),
        t < seg.len,
    ensures
        seg.src + t == ring_index(head, start + at + t, cap),
        seg.dst + t == ring_index(tail, at + t, cap),
{
}

/// No run that is read meets a run that is written, and runs written for
/// different parts of the request do not meet: the segments can be carried
/// out as plain block copies, in any order.
pub proof fn lemma_runs_do_not_overlap(
    a: CopySegment,
    at_a: nat,
    b: CopySegment,
    at_b: nat,
    head: nat,
    tail: nat,
    cap: nat,
    start: nat,
    len: nat,
)
    requires
        plannable(head, tail, cap, start, len),
        segment_is_run(a, head, tail, cap, start, at_a),
        segment_is_run(b, head, tail, cap, start, at_b),
        at_a + a.len <= len,
        at_b + b.len <= len,
        a.len > 0,
        b.len > 0,
    ensures
        a.src + a.len <= b.dst || b.dst + b.len <= a.src,
        at_a + a.len <= at_b ==> a.dst + a.len <= b.dst || b.dst + b.len <= a.dst,
{
}

/// The planned segments carry out the request. At most two of them are
/// non-empty: the live region and the free region never both wrap.
pub proof fn lemma_planned_segments(head: nat, tail: nat, cap: nat, start: nat, len: nat)
    requires
        plannable(head, tail, cap, start, len),
        cap <= usize::MAX,
    ensures
        plan_is_faithful(planned_segments(head, tail, cap, start, len), head, tail, cap, start, len),
        planned_segments(head, tail, cap, start, len)[3].len == 0,
        planned_segments(head, tail, cap, start, len)[1].len == 0 || planned_segments(
            head,
            tail,
            cap,
            start,
            len,
        )[2].len == 0,
{
    let plan = planned_segments(head, tail, cap, start, len);
    reveal_with_fuel(segment_start, 5);
    assert(segment_is_run(plan[0], head, tail, cap, start, segment_start(plan, 0)));
    assert(segment_is_run(plan[1], head, tail, cap, start, segment_start(plan, 1)));
    assert(segment_is_run(plan[2], head, tail, cap, start, segment_start(plan, 2)));
    assert(segment_is_run(plan[3], head, tail, cap, start, segment_start(plan, 3)));
}

/// The store `buf` is the store `before` with the first `done` bytes of the
/// request carried out: the live bytes are untouched, and the `done` slots
/// behind them hold copies of the bytes from logical offset `start` onward.
pub open spec fn replayed(
    buf: Seq<u8>,
    before: Seq<u8>,
    head: nat,
    tail: nat,
    cap: nat,
    start: nat,
    done: nat,
) -> bool {
    &&& buf.len() == cap
    &&& before.len() == cap
    &&& forall|j: nat|
        j < live_len(head, tail, cap) ==> buf[#[trigger] ring_index(head, j, cap) as int]
            == before[ring_index(head, j, cap) as int]
    &&& forall|t: nat|
        t < done ==> buf[#[trigger] ring_index(tail, t, cap) as int] == before[ring_index(
            head,
            start + t,
            cap,
        ) as int]
}

/// Carrying out the segment that begins at position `at` of the request
/// extends what has been replayed by the segment's length.
pub proof fn lemma_copy_segment(
    buf: Seq<u8>,
    after: Seq<u8>,
    before: Seq<u8>,
    seg: CopySegment,
    head: nat,
    tail: nat,
    cap: nat,
    start: nat,
    len: nat,
    at: nat,
)
    requires
        plannable(head, tail, cap, start, len),
        replayed(buf, before, head, tail, cap, start, at),
        segment_is_run(seg, head, tail, cap, start, at),
        at + seg.len <= len,
        after.len() == buf.len(),
        forall|i: int|
            0 <= i < buf.len() ==> #[trigger] after[i] == block_written(
                buf,
                seg.dst as int,
                buf,
                seg.src as int,
                seg.len as int,
                i,
            ),
    ensures
        replayed(after, before, head, tail, cap, start, at + seg.len as nat),
{
    let live = live_len(head, tail, cap);
    assert forall|j: nat| j < live implies after[#[trigger] ring_index(head, j, cap) as int]
        == before[ring_index(head, j, cap) as int] by {
        let p = ring_index(head, j, cap) as int;
        assert(after[p] == block_written(buf, seg.dst as int, buf, seg.src as int, seg.len as int, p));
    }
    assert forall|t: nat| t < at + seg.len implies after[#[trigger] ring_index(tail, t, cap) as int]
        == before[ring_index(head, start + t, cap) as int] by {
        let p = ring_index(tail, t, cap) as int;
        assert(after[p] == block_written(buf, seg.dst as int, buf, seg.src as int, seg.len as int, p));
        if t >= at {
            let q = ring_index(head, start + t, cap);
            assert(q == seg.src + (t - at));
            assert(p == seg.dst + (t - at));
            assert(buf[q as int] == before[q as int]);
        }
    }
}

/// The smaller of two numbers.
fn smaller(a: usize, b: usize) -> (r: usize)
    ensures
        r == lesser(a as nat, b as nat),
{
    if a <= b {
        a
    } else {
        b
    }
}

/// Plans the append of the `len` live bytes from logical offset `start` in
/// a ring of `cap` slots with cursors `head` and `tail`.
pub fn copy_plan(head: usize, tail: usize, cap: usize, start: usize, len: usize) -> (plan: [CopySegment; 4])
    requires
        plannable(head as nat, tail as nat, cap as nat, start as nat, len as nat),
    ensures
        plan@ == planned_segments(head as nat, tail as nat, cap as nat, start as nat, len as nat),
        plan_is_faithful(plan@, head as nat, tail as nat, cap as nat, start as nat, len as nat),
        plan@[3].len == 0,
        plan@[1].len == 0 || plan@[2].len == 0,
{
    let s1_len: usize = if tail >= head {
        tail - head
    } else {
        cap - head
    };
    let f1_len: usize = if tail < head {
        head - tail
    } else {
        cap - tail
    };
    assert(s1_len == data_span_lengths(head as nat, tail as nat, cap as nat).0);
    assert(f1_len == free_span_lengths(head as nat, tail as nat, cap as nat).1);
    let start_in_s1: usize = smaller(s1_len, start);
    let end_in_s1: usize = smaller(s1_len, start + len);
    let m1_len: usize = end_in_s1 - start_in_s1;
    let start_in_s2: usize = start - start_in_s1;
    let m2_len: usize = len - m1_len;
    let m1_in_f1: usize = smaller(m1_len, f1_len);
    let m1_in_f2: usize = m1_len - m1_in_f1;
    let m2_in_f1: usize = smaller(f1_len - m1_in_f1, m2_len);
    let m2_in_f2: usize = m2_len - m2_in_f1;
    let first = CopySegment { src: head + start_in_s1, dst: tail, len: m1_in_f1 };
    let second = CopySegment { src: start_in_s2, dst: tail + m1_in_f1, len: m2_in_f1 };
    let third = CopySegment { src: head + start_in_s1 + m1_in_f1, dst: 0, len: m1_in_f2 };
    let fourth = CopySegment { src: start_in_s2 + m2_in_f1, dst: m1_in_f2, len: m2_in_f2 };
    proof {
        let wanted = planned_segments(head as nat, tail as nat, cap as nat, start as nat, len as nat);
        assert(first == wanted[0]);
        assert(second == wanted[1]);
        assert(third == wanted[2]);
        assert(fourth == wanted[3]);
    }
    let plan: [CopySegment; 4] = [first, second, third, fourth];
    proof {
        let wanted = planned_segments(head as nat, tail as nat, cap as nat, start as nat, len as nat);
        assert(plan@ =~= wanted);
        assert(plan@ == wanted);
        lemma_planned_segments(head as nat, tail as nat, cap as nat, start as nat, len as nat);
    }
    plan
}

} // verus!
