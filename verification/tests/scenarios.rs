use ring_buffer::RingBuffer;

fn joined(rb: &RingBuffer) -> Vec<u8> {
    let (first, second) = rb.data_slices();
    [first, second].concat()
}

fn capacity(rb: &RingBuffer) -> usize {
    let (live_a, live_b) = rb.data_slice_lengths();
    let (free_a, free_b) = rb.free_slice_lengths();
    live_a + live_b + free_a + free_b
}

/// An unbounded array that does what the buffer is to do.
struct Model {
    bytes: Vec<u8>,
}

impl Model {
    fn extend(&mut self, data: &[u8]) {
        self.bytes.extend_from_slice(data);
    }

    fn extend_from_within(&mut self, start: usize, len: usize) {
        let copy: Vec<u8> = self.bytes[start..start + len].to_vec();
        self.bytes.extend_from_slice(&copy);
    }

    fn drain(&mut self, amount: usize) {
        let n = amount.min(self.bytes.len());
        self.bytes.drain(..n);
    }
}

#[test]
fn digits_drained_and_replayed() {
    let mut rb = RingBuffer::new();
    assert_eq!(rb.len(), 0);
    assert!(rb.is_empty());

    rb.extend(b"0123456789");
    assert_eq!(rb.len(), 10);
    assert_eq!(rb.data_slices().0, b"0123456789");
    assert_eq!(rb.data_slices().1, b"");

    rb.drain(5);
    assert_eq!(rb.len(), 5);
    assert_eq!(rb.data_slices().0, b"56789");
    assert_eq!(rb.data_slices().1, b"");

    rb.extend_from_within(2, 3);
    assert_eq!(rb.len(), 8);
    assert_eq!(rb.data_slices().0, b"56789789");
    assert_eq!(rb.data_slices().1, b"");
}

#[test]
fn replay_across_the_physical_end_splits_the_view() {
    let mut rb = RingBuffer::new();
    rb.extend(b"0123456789");
    rb.drain(5);
    rb.extend_from_within(2, 3);
    rb.extend(b"ab");
    assert_eq!(capacity(&rb), 16);
    let before = joined(&rb);
    assert_eq!(before, b"56789789ab");

    // The tail stands on the last slot: the first copied byte fills it and
    // the second goes to slot 0.
    rb.extend_from_within(0, 2);
    assert_eq!(rb.len(), 12);
    assert_eq!(rb.data_slices().0, b"56789789ab5");
    assert_eq!(rb.data_slices().1, b"6");
    let mut wanted = before.clone();
    wanted.extend_from_slice(&before[0..2]);
    assert_eq!(joined(&rb), wanted);
    assert_eq!(capacity(&rb), 16);
}

#[test]
fn replay_from_a_source_that_straddles_the_end() {
    let mut rb = RingBuffer::new();
    rb.extend(b"0123456789");
    rb.drain(8);
    rb.extend(b"abcdefghij");
    assert_eq!(capacity(&rb), 16);
    assert_eq!(rb.data_slices().0, b"89abcdef");
    assert_eq!(rb.data_slices().1, b"ghij");

    // "ef" lies on the last two slots, "g" on slot 0.
    rb.extend_from_within(6, 3);
    assert_eq!(capacity(&rb), 16);
    assert_eq!(rb.len(), 15);
    assert_eq!(rb.data_slices().0, b"89abcdef");
    assert_eq!(rb.data_slices().1, b"ghijefg");
    assert_eq!(rb.free_slice_lengths(), (0, 1));
}

#[test]
fn replay_into_a_destination_that_straddles_the_end() {
    let mut rb = RingBuffer::new();
    rb.extend(b"0123456789");
    rb.drain(5);
    rb.extend(b"abcd");
    assert_eq!(capacity(&rb), 16);
    assert_eq!(rb.free_slice_lengths(), (5, 2));

    rb.extend_from_within(0, 4);
    assert_eq!(capacity(&rb), 16);
    assert_eq!(rb.data_slices().0, b"56789abcd56");
    assert_eq!(rb.data_slices().1, b"78");
}

#[test]
fn cycles_past_the_physical_end_match_an_unbounded_array() {
    let mut rb = RingBuffer::new();
    let mut model = Model { bytes: Vec::new() };
    let mut seed: u32 = 0x2545_f491;
    let mut next = move |bound: usize| -> usize {
        seed = seed.wrapping_mul(1_664_525).wrapping_add(1_013_904_223);
        ((seed >> 8) as usize) % bound
    };

    rb.extend(b"0123456789abcdefghijklmno");
    model.extend(b"0123456789abcdefghijklmno");
    let slots = capacity(&rb);
    assert_eq!(slots, 32);

    let mut appended: usize = 25;
    let mut split_views: usize = 0;
    let mut split_sources: usize = 0;
    let mut split_destinations: usize = 0;
    let mut stamp: u8 = 0;
    for _ in 0..2000 {
        // Keep fewer than 32 bytes live, so that the store never grows and
        // the cursors go round and round.
        let live = rb.len();
        assert_eq!(live, model.bytes.len());
        match next(3) {
            0 => {
                let amount = next(12);
                rb.drain(amount);
                model.drain(amount);
            }
            1 => {
                let n = next((31 - live).min(9) + 1);
                let data: Vec<u8> = (0..n).map(|i| stamp.wrapping_add(i as u8)).collect();
                stamp = stamp.wrapping_add(n as u8).wrapping_add(1);
                rb.extend(&data);
                model.extend(&data);
                appended += n;
            }
            _ => {
                let len = next((31 - live).min(live) + 1);
                let start = next(live - len + 1);
                let (first_live, second_live) = rb.data_slice_lengths();
                let (_, free_after_tail) = rb.free_slice_lengths();
                if len > 0 && start < first_live && start + len > first_live && second_live > 0 {
                    split_sources += 1;
                }
                if len > free_after_tail {
                    split_destinations += 1;
                }
                rb.extend_from_within(start, len);
                model.extend_from_within(start, len);
                appended += len;
            }
        }
        assert_eq!(capacity(&rb), slots);
        assert_eq!(joined(&rb), model.bytes);
        assert_eq!(rb.is_empty(), model.bytes.is_empty());
        if !rb.data_slices().1.is_empty() {
            split_views += 1;
        }
    }
    assert!(appended > 2 * slots);
    assert!(split_views > 0);
    assert!(split_sources > 0);
    assert!(split_destinations > 0);
}

#[test]
fn replay_longer_than_its_distance_goes_in_steps() {
    // A match of length 7 at distance 3: each step may only read what the
    // step before has written.
    let mut rb = RingBuffer::new();
    rb.extend(b"xyzabc");
    let mut left: usize = 7;
    while left > 0 {
        let step = left.min(3);
        let start = rb.len() - 3;
        rb.extend_from_within(start, step);
        left -= step;
    }
    assert_eq!(joined(&rb), b"xyzabcabcabca");
}

#[test]
fn replay_of_nothing_changes_nothing() {
    let mut rb = RingBuffer::new();
    rb.extend(b"hello");
    rb.extend_from_within(5, 0);
    rb.extend_from_within(0, 0);
    assert_eq!(joined(&rb), b"hello");
    assert_eq!(rb.len(), 5);
}

#[test]
fn replay_of_everything_doubles_the_content() {
    let mut rb = RingBuffer::new();
    rb.extend(b"hello");
    rb.extend_from_within(0, 5);
    assert_eq!(joined(&rb), b"hellohello");
}

#[test]
fn replay_on_a_new_buffer_allocates_the_slack_slot() {
    let mut rb = RingBuffer::new();
    rb.extend_from_within(0, 0);
    assert!(rb.is_empty());
    assert_eq!(capacity(&rb), 1);
}
