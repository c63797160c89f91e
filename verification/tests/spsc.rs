use pelican::ring::{Head, Inner, RingSlot, Tail};
use pelican::spsc::channel;

#[test]
fn test_ring_slot_cache_line_size() {
    assert_eq!(std::mem::size_of::<RingSlot<u64>>(), 64);
    assert_eq!(std::mem::align_of::<RingSlot<u64>>(), 64);
}

#[test]
fn test_head_tail_cache_line_isolation() {
    assert_eq!(std::mem::align_of::<Head>(), 64);
    assert_eq!(std::mem::align_of::<Tail>(), 64);
}

#[test]
fn test_single_threaded_roundtrip() {
    let (tx, rx) = channel::<u64>(8);
    assert!(rx.try_recv().is_none());
    tx.try_send(42).unwrap();
    assert_eq!(rx.try_recv(), Some(42));
    assert!(rx.try_recv().is_none());
}

#[test]
fn test_full_queue_returns_err() {
    let (tx, _rx) = channel::<u64>(4);
    for i in 0..4 {
        tx.try_send(i).unwrap();
    }
    assert!(tx.try_send(99).is_err());
}

#[test]
fn test_capacity_rounded_to_power_of_two() {
    let (tx, _rx) = channel::<u64>(5);
    // capacity rounds to 8
    for i in 0..8 {
        tx.try_send(i).unwrap();
    }
    assert!(tx.try_send(99).is_err());
}

#[test]
fn refused_send_hands_the_value_back() {
    let (tx, _rx) = channel::<String>(1);
    tx.try_send("first".to_string()).unwrap();
    assert_eq!(tx.try_send("second".to_string()), Err("second".to_string()));
}

#[test]
fn capacity_one_stays_one() {
    let (tx, rx) = channel::<u8>(1);
    assert_eq!(tx.try_send(1), Ok(()));
    assert_eq!(tx.try_send(2), Err(2));
    assert_eq!(rx.try_recv(), Some(1));
    assert_eq!(tx.try_send(3), Ok(()));
    assert_eq!(rx.try_recv(), Some(3));
    assert_eq!(rx.try_recv(), None);
}

#[test]
fn exact_power_of_two_is_kept() {
    let (tx, _rx) = channel::<u32>(16);
    for i in 0..16 {
        assert!(tx.try_send(i).is_ok());
    }
    assert!(tx.try_send(16).is_err());
}

#[test]
fn values_come_out_in_order_across_many_laps() {
    let (tx, rx) = channel::<u64>(3);
    let mut next_in = 0u64;
    let mut next_out = 0u64;
    for round in 0..1000u64 {
        let burst = round % 5;
        for _ in 0..burst {
            if tx.try_send(next_in).is_ok() {
                next_in += 1;
            }
        }
        let drain = (round * 7) % 4;
        for _ in 0..drain {
            if let Some(v) = rx.try_recv() {
                assert_eq!(v, next_out);
                next_out += 1;
            }
        }
        assert!(next_in - next_out <= 4);
    }
    while let Some(v) = rx.try_recv() {
        assert_eq!(v, next_out);
        next_out += 1;
    }
    assert_eq!(next_in, next_out);
}

#[test]
fn ring_fifo_and_full_and_empty() {
    let mut ring = Inner::<i32>::new(2);
    assert_eq!(ring.try_recv(), None);
    assert_eq!(ring.try_send(10), Ok(()));
    assert_eq!(ring.try_send(20), Ok(()));
    assert_eq!(ring.try_send(30), Err(30));
    assert_eq!(ring.try_recv(), Some(10));
    assert_eq!(ring.try_send(40), Ok(()));
    assert_eq!(ring.try_recv(), Some(20));
    assert_eq!(ring.try_recv(), Some(40));
    assert_eq!(ring.try_recv(), None);
}

#[test]
fn ring_slot_starts_vacant_and_is_cache_line_sized_for_other_types() {
    let _slot: RingSlot<u8> = RingSlot::new();
    assert_eq!(std::mem::size_of::<RingSlot<u8>>(), 64);
    assert_eq!(std::mem::align_of::<RingSlot<[u64; 4]>>(), 64);
}
