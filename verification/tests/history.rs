use lift_sim::history_store::{HistoryStore, SimpleRingbuf};

#[test]
fn test_ringbuf() {
    let mut ringbuf: SimpleRingbuf<u8> = SimpleRingbuf::new(5);
    ringbuf.push(1);
    ringbuf.push(2);
    ringbuf.push(3);
    assert_eq!(ringbuf.data, vec![1, 2, 3, 0, 0]);
    let ordered_data = ringbuf.flatten_copy();
    assert_eq!(ordered_data, vec![1, 2, 3]);
    ringbuf.push(4);
    ringbuf.push(5);
    ringbuf.push(6);
    assert_eq!(ringbuf.data, vec![6, 2, 3, 4, 5]);
    assert_eq!(ringbuf.flatten_copy(), vec![2, 3, 4, 5, 6]);
    ringbuf.push(7);
    ringbuf.push(8);
    ringbuf.push(9);
    ringbuf.push(10);
    assert_eq!(ringbuf.data, vec![6, 7, 8, 9, 10]);
    assert_eq!(ringbuf.flatten_copy(), vec![6, 7, 8, 9, 10]);
}

#[test]
fn test_storage() {
    let mut history_store: HistoryStore<u8> = HistoryStore::new(3, 10, 3);
    for i in 1..=10 {
        history_store.push(i);
    }
    assert_eq!(history_store.primary_ringbuf.flatten_copy(), vec![8, 9, 10]);
    assert_eq!(history_store.storage_ringbuf.flatten_copy(), vec![3, 6]);
}

#[test]
fn push_emit_hands_back_evicted_sample() {
    let mut ringbuf: SimpleRingbuf<u8> = SimpleRingbuf::new(2);
    assert_eq!(ringbuf.push_emit(1), None);
    assert_eq!(ringbuf.push_emit(2), None);
    assert_eq!(ringbuf.push_emit(3), Some(1));
    assert_eq!(ringbuf.push_emit(4), Some(2));
    assert_eq!(ringbuf.flatten_copy(), vec![3, 4]);
}
