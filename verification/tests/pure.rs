use ring_buffer::block::{copy_block, write_block};
use ring_buffer::growth::checked_grown_capacity;
use ring_buffer::plan::{copy_plan, CopySegment};
use ring_buffer::pow2::next_power_of_two_within;

const LIMIT: usize = isize::MAX as usize;

#[test]
fn rounding_up_to_powers_of_two() {
    assert_eq!(next_power_of_two_within(0, LIMIT), Some(1));
    assert_eq!(next_power_of_two_within(1, LIMIT), Some(1));
    assert_eq!(next_power_of_two_within(2, LIMIT), Some(2));
    assert_eq!(next_power_of_two_within(3, LIMIT), Some(4));
    assert_eq!(next_power_of_two_within(4, LIMIT), Some(4));
    assert_eq!(next_power_of_two_within(5, LIMIT), Some(8));
    assert_eq!(next_power_of_two_within(17, LIMIT), Some(32));
    assert_eq!(next_power_of_two_within(1000, LIMIT), Some(1024));
    assert_eq!(next_power_of_two_within(1024, LIMIT), Some(1024));
    assert_eq!(next_power_of_two_within(1025, LIMIT), Some(2048));
}

#[test]
fn rounding_agrees_with_the_standard_library() {
    for n in 0usize..5000 {
        assert_eq!(next_power_of_two_within(n, LIMIT), Some(n.next_power_of_two()));
    }
}

#[test]
fn rounding_stops_at_the_limit() {
    assert_eq!(next_power_of_two_within(0, 0), None);
    assert_eq!(next_power_of_two_within(1, 0), None);
    assert_eq!(next_power_of_two_within(0, 1), Some(1));
    assert_eq!(next_power_of_two_within(17, 31), None);
    assert_eq!(next_power_of_two_within(17, 32), Some(32));
    assert_eq!(next_power_of_two_within(16, 16), Some(16));
    assert_eq!(next_power_of_two_within(16, 15), None);
    let top: usize = (LIMIT >> 1) + 1;
    assert_eq!(next_power_of_two_within(top, LIMIT), Some(top));
    assert_eq!(next_power_of_two_within(top - 1, LIMIT), Some(top));
    assert_eq!(next_power_of_two_within(top + 1, LIMIT), None);
    assert_eq!(next_power_of_two_within(LIMIT, LIMIT), None);
    assert_eq!(next_power_of_two_within(usize::MAX, LIMIT), None);
    assert_eq!(next_power_of_two_within(usize::MAX, usize::MAX), None);
}

#[test]
fn growth_rounds_old_slots_request_and_slack() {
    assert_eq!(checked_grown_capacity(0, 0), Some(1));
    assert_eq!(checked_grown_capacity(0, 10), Some(16));
    assert_eq!(checked_grown_capacity(0, 15), Some(16));
    assert_eq!(checked_grown_capacity(0, 16), Some(32));
    assert_eq!(checked_grown_capacity(16, 100), Some(128));
    assert_eq!(checked_grown_capacity(32, 10), Some(64));
    assert_eq!(checked_grown_capacity(32, 31), Some(64));
    assert_eq!(checked_grown_capacity(32, 32), Some(128));
}

#[test]
fn growth_at_least_doubles() {
    // Rounding 3 + 0 + 1 gives 4; doubling gives 6.
    assert_eq!(checked_grown_capacity(3, 0), Some(6));
    assert_eq!(checked_grown_capacity(5, 1), Some(10));
    assert_eq!(checked_grown_capacity(7, 0), Some(14));
    assert_eq!(checked_grown_capacity(6, 1), Some(12));
    assert_eq!(checked_grown_capacity(6, 2), Some(16));
}

#[test]
fn growth_stops_at_the_signed_address_range() {
    let top: usize = (LIMIT >> 1) + 1;
    assert_eq!(checked_grown_capacity(0, top - 1), Some(top));
    assert_eq!(checked_grown_capacity(0, top), None);
    assert_eq!(checked_grown_capacity(top >> 1, 0), Some(top));
    assert_eq!(checked_grown_capacity(top, 0), None);
    assert_eq!(checked_grown_capacity(0, LIMIT), None);
    assert_eq!(checked_grown_capacity(0, usize::MAX), None);
    assert_eq!(checked_grown_capacity(LIMIT, 0), None);
    assert_eq!(checked_grown_capacity(usize::MAX, usize::MAX), None);
    assert_eq!(checked_grown_capacity(1, usize::MAX), None);
}

#[test]
fn write_block_overwrites_the_run_only() {
    let mut buf: Vec<u8> = b"..........".to_vec();
    write_block(&mut buf, 3, b"abcdef", 2, 3);
    assert_eq!(buf, b"...cde....");
    write_block(&mut buf, 0, b"xy", 0, 2);
    assert_eq!(buf, b"xy.cde....");
    write_block(&mut buf, 8, b"pq", 0, 2);
    assert_eq!(buf, b"xy.cde..pq");
    write_block(&mut buf, 10, b"pq", 2, 0);
    assert_eq!(buf, b"xy.cde..pq");
}

#[test]
fn copy_block_copies_between_disjoint_runs() {
    let mut buf: Vec<u8> = b"0123456789".to_vec();
    copy_block(&mut buf, 0, 5, 3);
    assert_eq!(buf, b"0123401289");
    copy_block(&mut buf, 7, 0, 3);
    assert_eq!(buf, b"2893401289");
    copy_block(&mut buf, 4, 4, 0);
    assert_eq!(buf, b"2893401289");
    copy_block(&mut buf, 10, 0, 0);
    assert_eq!(buf, b"2893401289");
}

fn segment(src: usize, dst: usize, len: usize) -> CopySegment {
    CopySegment { src, dst, len }
}

#[test]
fn plan_without_any_wrap_is_one_segment() {
    // Live bytes on slots 0..10 of 16; copy logical 2..5 behind them.
    let plan = copy_plan(0, 10, 16, 2, 3);
    assert_eq!(plan[0], segment(2, 10, 3));
    assert_eq!(plan[1].len, 0);
    assert_eq!(plan[2].len, 0);
    assert_eq!(plan[3].len, 0);
}

#[test]
fn plan_for_a_source_that_wraps() {
    // Live bytes on slots 8..16 and 0..4; free slots 4..8.
    let plan = copy_plan(8, 4, 16, 6, 3);
    assert_eq!(
        plan,
        [segment(14, 4, 2), segment(0, 6, 1), segment(16, 0, 0), segment(1, 0, 0)]
    );
}

#[test]
fn plan_for_a_destination_that_wraps() {
    // Live bytes on slots 5..14; free slots 14..16 and 0..5.
    let plan = copy_plan(5, 14, 16, 0, 4);
    assert_eq!(
        plan,
        [segment(5, 14, 2), segment(0, 16, 0), segment(7, 0, 2), segment(0, 2, 0)]
    );
}

#[test]
fn plan_from_the_second_live_span_only() {
    // Live bytes on slots 12..16 and 0..6; copy logical 5..9, slots 1..5.
    let plan = copy_plan(12, 6, 16, 5, 4);
    assert_eq!(
        plan,
        [segment(16, 6, 0), segment(1, 6, 4), segment(16, 0, 0), segment(5, 0, 0)]
    );
}

#[test]
fn plan_of_nothing_is_empty() {
    let plan = copy_plan(3, 7, 16, 4, 0);
    for seg in plan.iter() {
        assert_eq!(seg.len, 0);
    }
}

#[test]
fn every_small_plan_matches_a_bytewise_copy() {
    let mut plans: usize = 0;
    let mut two_segments: usize = 0;
    for cap in 1usize..=9 {
        for head in 0..cap {
            for tail in 0..cap {
                let live = (tail + cap - head) % cap;
                for len in 0..cap {
                    if live + len >= cap || len > live {
                        continue;
                    }
                    for start in 0..=(live - len) {
                        let plan = copy_plan(head, tail, cap, start, len);
                        let store: Vec<u8> = (0..cap).map(|i| 100 + i as u8).collect();

                        let mut wanted = store.clone();
                        for t in 0..len {
                            wanted[(tail + t) % cap] = store[(head + start + t) % cap];
                        }

                        let mut got = store.clone();
                        let mut total: usize = 0;
                        let mut nonempty: usize = 0;
                        for seg in plan.iter() {
                            assert!(seg.src + seg.len <= cap);
                            assert!(seg.dst + seg.len <= cap);
                            assert!(seg.src + seg.len <= seg.dst || seg.dst + seg.len <= seg.src);
                            if seg.len > 0 {
                                assert_eq!(seg.src, (head + start + total) % cap);
                                assert_eq!(seg.dst, (tail + total) % cap);
                                nonempty += 1;
                            }
                            copy_block(&mut got, seg.src, seg.dst, seg.len);
                            total += seg.len;
                        }
                        assert_eq!(total, len);
                        assert_eq!(got, wanted);
                        assert!(nonempty <= 2);
                        assert_eq!(plan[3].len, 0);
                        if nonempty == 2 {
                            two_segments += 1;
                        }
                        plans += 1;
                    }
                }
            }
        }
    }
    assert!(plans > 1000);
    assert!(two_segments > 100);
}
