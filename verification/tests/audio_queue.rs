use tacklecast::audio::RING_BUFFER_CAPACITY;
use tacklecast::ring::{silence_rest, AudioRingBuffer, RingCursor};

fn bits(samples: &[f32]) -> Vec<u32> {
    samples.iter().map(|sample| sample.to_bits()).collect()
}

#[test]
fn ring_buffer_round_trips_samples_in_order() {
    let mut ring = AudioRingBuffer::new(8);
    assert_eq!(ring.push_samples(&bits(&[0.1, 0.2, 0.3])), 3);

    let mut out = [0u32; 4];
    let count = ring.pop_samples(&mut out);
    assert_eq!(count, 3);
    assert!((f32::from_bits(out[0]) - 0.1).abs() < 0.0001);
    assert!((f32::from_bits(out[1]) - 0.2).abs() < 0.0001);
    assert!((f32::from_bits(out[2]) - 0.3).abs() < 0.0001);
}

#[test]
fn ring_buffer_limits_to_capacity() {
    let mut ring = AudioRingBuffer::new(2);
    assert_eq!(ring.push_samples(&bits(&[0.1, 0.2, 0.3])), 2);
}

#[test]
fn ring_buffer_without_cells_takes_nothing() {
    let mut ring = AudioRingBuffer::new(0);
    assert_eq!(ring.push_samples(&[1, 2]), 0);
    let mut out = [9u32; 2];
    assert_eq!(ring.pop_samples(&mut out), 0);
    assert_eq!(out, [9, 9]);
}

#[test]
fn ring_buffer_keeps_order_around_the_end() {
    let mut ring = AudioRingBuffer::new(3);
    let mut out = [0u32; 2];
    assert_eq!(ring.push_samples(&[1, 2, 3, 4]), 3);
    assert_eq!(ring.pop_samples(&mut out), 2);
    assert_eq!(out, [1, 2]);
    assert_eq!(ring.push_samples(&[5, 6, 7]), 2);
    assert_eq!(ring.pop_samples(&mut out), 2);
    assert_eq!(out, [3, 5]);
    assert_eq!(ring.pop_samples(&mut out), 1);
    assert_eq!(out, [6, 5]);
}

#[test]
fn silence_stands_where_samples_are_missing() {
    let mut ring = AudioRingBuffer::new(4);
    assert_eq!(ring.push_samples(&bits(&[0.5, -0.5])), 2);
    let mut out = [9u32; 4];
    assert_eq!(ring.pop_or_silence(&mut out), 2);
    assert_eq!(out.to_vec(), bits(&[0.5, -0.5, 0.0, 0.0]));
    let mut out = [9u32; 2];
    assert_eq!(ring.pop_or_silence(&mut out), 0);
    assert_eq!(out, [0, 0]);
    let mut full = [7u32; 3];
    silence_rest(&mut full, 3);
    assert_eq!(full, [7, 7, 7]);
    silence_rest(&mut full, 1);
    assert_eq!(full, [7, 0, 0]);
}

#[test]
fn pieces_push_like_the_whole() {
    let mut pieces = AudioRingBuffer::new(4);
    let mut whole = AudioRingBuffer::new(4);
    assert_eq!(pieces.push_samples(&[1, 2, 3]) + pieces.push_samples(&[4, 5]), 4);
    assert_eq!(whole.push_samples(&[1, 2, 3, 4, 5]), 4);
    let mut from_pieces = [0u32; 5];
    let mut from_whole = [0u32; 5];
    assert_eq!(pieces.pop_samples(&mut from_pieces), 4);
    assert_eq!(whole.pop_samples(&mut from_whole), 4);
    assert_eq!(from_pieces, from_whole);
}

#[test]
fn cursor_wraps_around() {
    let cursor = RingCursor { capacity: 8, read_index: usize::MAX - 1, write_index: 1 };
    assert_eq!(cursor.queued(), 3);
    assert_eq!(cursor.push_count(100), 5);
    assert_eq!(cursor.push_count(2), 2);
    assert_eq!(cursor.pop_count(100), 3);
    assert_eq!(cursor.pop_count(1), 1);
    assert_eq!(cursor.read_cell(0), (usize::MAX - 1) % 8);
    assert_eq!(cursor.read_cell(2), 0);
    assert_eq!(cursor.write_cell(0), 1);
    let pushed = cursor.after_push(4);
    assert_eq!(pushed.write_index, 5);
    let popped = pushed.after_pop(3);
    assert_eq!(popped.read_index, 1);
    assert_eq!(popped.queued(), 4);
}

#[test]
fn unseen_changes_never_let_the_queue_overrun() {
    let seen = RingCursor { capacity: 4, read_index: 0, write_index: 3 };
    let actual = seen.after_pop(2);
    assert!(seen.push_count(9) <= actual.push_count(9));
    let grown = seen.after_push(1);
    assert!(seen.pop_count(9) <= grown.queued());
}

#[test]
fn queue_holds_one_second_of_stereo() {
    assert_eq!(RING_BUFFER_CAPACITY, 48_000 * 2);
}
