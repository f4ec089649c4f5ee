use pane::history::{History, HISTORY_LEN};

#[test]
fn history_is_a_bounded_ring_buffer() {
    let mut h = History::new();
    for i in 0..(HISTORY_LEN + 50) {
        h.push(i as f64);
    }
    assert_eq!(h.data.len(), HISTORY_LEN);
    // Oldest samples were dropped; newest is last.
    assert_eq!(h.last(), (HISTORY_LEN + 49) as f64);
    assert_eq!(h.data[0], 50.0);
}

#[test]
fn empty_history_last_is_zero() {
    assert_eq!(History::<f64>::new().last(), 0.0);
}

#[test]
fn history_keeps_everything_below_capacity() {
    let mut h: History<u64> = History::new();
    for i in 0..10u64 {
        h.push(i);
    }
    assert_eq!(h.data, (0..10u64).collect::<Vec<_>>());
    assert_eq!(h.last(), 9);
}
