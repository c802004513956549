//! Tests for the circular delay line.

use tap_reverb::reverb::RingBuffer;

/// A delay line fed an impulse and then silence reproduces the impulse
/// exactly once, one slot short of its length later, and stays silent
/// afterwards, for several lengths.
#[test]
fn impulse_comes_back_once_after_len_minus_one_steps() {
    for len in [2usize, 3, 5, 8, 16] {
        let mut rb = RingBuffer::new(vec![0i64; len]);
        for t in 0..(4 * len) {
            let out = rb.read_next();
            let input: i64 = if t == 0 { 1_000_000 } else { 0 };
            rb.write_next(input);
            let expected: i64 = if t == len - 1 { 1_000_000 } else { 0 };
            assert_eq!(out, expected, "length {} step {}", len, t);
        }
    }
}

/// The read cursor starts one slot ahead of the write cursor, so reads walk
/// the initial contents starting from the second cell.
#[test]
fn read_cursor_leads_initial_contents() {
    let mut rb = RingBuffer::new(vec![10, 20, 30]);
    assert_eq!(rb.read_next(), 20);
    assert_eq!(rb.read_next(), 30);
    assert_eq!(rb.read_next(), 10);
    assert_eq!(rb.read_next(), 20);
}

/// A write lands at the write cursor and is read back a full lap later.
#[test]
fn write_is_read_one_lap_later() {
    let mut rb = RingBuffer::new(vec![0i64; 4]);
    rb.write_next(7);
    // The write went to slot 0; reads start at slot 1.
    assert_eq!(rb.read_next(), 0);
    assert_eq!(rb.read_next(), 0);
    assert_eq!(rb.read_next(), 0);
    assert_eq!(rb.read_next(), 7);
}
