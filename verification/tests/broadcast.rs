use aeron_rs::cnc::broadcast::{new_heap_broadcast, BroadcastError, BroadcastReceiver};

const TEST_CAPACITY: usize = 1024;

#[test]
fn create_broadcast() {
    let (_, tx) = new_heap_broadcast(TEST_CAPACITY).expect("create");
    assert_eq!(tx.capacity(), TEST_CAPACITY);
}

#[test]
fn broadcast_invalid_capacity() {
    assert_eq!(
        new_heap_broadcast(100).unwrap_err(),
        BroadcastError::InvalidCapacity,
    );
}

#[test]
fn transmit_and_receive() {
    let (mut buf, tx) = new_heap_broadcast(TEST_CAPACITY).expect("create");
    let cursor = tx.tail_counter(&buf);
    let mut rx = BroadcastReceiver::new(0, TEST_CAPACITY, cursor);

    let payload = [1u8, 2, 3, 4, 5, 6, 7, 8];
    tx.transmit(&mut buf, 42, &payload).expect("transmit");

    let mut received = Vec::new();
    let count = rx.receive(&buf, &mut received);

    assert_eq!(count, 1);
    assert_eq!(received[0].msg_type, 42);
    assert_eq!(received[0].payload, &[1, 2, 3, 4, 5, 6, 7, 8]);
}

#[test]
fn transmit_multiple() {
    let (mut buf, tx) = new_heap_broadcast(TEST_CAPACITY).expect("create");
    let cursor = tx.tail_counter(&buf);
    let mut rx = BroadcastReceiver::new(0, TEST_CAPACITY, cursor);

    for i in 0..10 {
        let payload = (i as u32).to_le_bytes();
        tx.transmit(&mut buf, i + 1, &payload).expect("transmit");
    }

    let mut received = Vec::new();
    let count = rx.receive(&buf, &mut received);

    assert_eq!(count, 10);
    for i in 0..10 {
        assert_eq!(received[i].msg_type, i as i32 + 1);
    }
}

#[test]
fn receive_empty() {
    let (mut buf, tx) = new_heap_broadcast(TEST_CAPACITY).expect("create");
    let cursor = tx.tail_counter(&buf);
    let mut rx = BroadcastReceiver::new(0, TEST_CAPACITY, cursor);

    let mut received = Vec::new();
    let count = rx.receive(&buf, &mut received);
    assert!(received.is_empty());
    assert_eq!(count, 0);
}

#[test]
fn multiple_receivers() {
    let (mut buf, tx) = new_heap_broadcast(TEST_CAPACITY).expect("create");
    let cursor = tx.tail_counter(&buf);

    let mut rx1 = BroadcastReceiver::new(0, TEST_CAPACITY, cursor);
    let mut rx2 = BroadcastReceiver::new(0, TEST_CAPACITY, cursor);

    tx.transmit(&mut buf, 1, &[10, 20]).expect("transmit");

    let mut received = Vec::new();
    let count1 = rx1.receive(&buf, &mut received);
    for message in &received {
        assert_eq!(message.msg_type, 1);
        assert_eq!(message.payload, &[10, 20]);
    }
    let mut received = Vec::new();
    let count2 = rx2.receive(&buf, &mut received);
    for message in &received {
        assert_eq!(message.msg_type, 1);
        assert_eq!(message.payload, &[10, 20]);
    }

    assert_eq!(count1, 1);
    assert_eq!(count2, 1);
}

#[test]
fn broadcast_message_too_large() {
    let (mut buf, tx) = new_heap_broadcast(64).expect("create");
    let payload = [0u8; 64];
    assert_eq!(tx.transmit(&mut buf, 1, &payload), Err(BroadcastError::MessageTooLarge));
}

#[test]
fn receiver_detects_lapped() {
    // Small buffer - 64 bytes capacity. Can hold ~1-2 messages.
    let (mut buf, tx) = new_heap_broadcast(64).expect("create");
    let cursor = tx.tail_counter(&buf);
    let mut rx = BroadcastReceiver::new(0, 64, cursor);

    // Write enough messages to lap the receiver.
    let payload = [0xAAu8; 20]; // 20 + 8 = 28, aligned to 32.
    for _ in 0..10 {
        tx.transmit(&mut buf, 1, &payload).expect("transmit");
    }

    // Receiver should detect it was lapped.
    let _ = rx.receive(&buf, &mut Vec::new());
    assert!(rx.lapped_count() > 0, "receiver should detect being lapped");
}

#[test]
fn broadcast_display_errors() {
    let e = BroadcastError::InvalidCapacity;
    assert!(e.to_string().contains("power-of-two"));
}

#[test]
fn lapped_receiver_goes_on_at_the_end() {
    let (mut buf, tx) = new_heap_broadcast(64).expect("create");
    let mut rx = BroadcastReceiver::new(0, 64, tx.tail_counter(&buf));
    for i in 0..10 {
        tx.transmit(&mut buf, i + 1, &[0xAAu8; 20]).expect("transmit");
    }
    rx.receive(&buf, &mut Vec::new());
    tx.transmit(&mut buf, 77, &[1, 2, 3]).expect("transmit");
    let mut received = Vec::new();
    rx.receive(&buf, &mut received);
    assert_eq!(received.last().map(|message| message.msg_type), Some(77));
    assert_eq!(received.last().map(|message| message.payload.clone()), Some(vec![1, 2, 3]));
}

#[test]
fn tail_counter_counts_aligned_records() {
    let (mut buf, tx) = new_heap_broadcast(TEST_CAPACITY).expect("create");
    assert_eq!(tx.tail_counter(&buf), 0);
    tx.transmit(&mut buf, 1, &[0u8; 25]).expect("transmit");
    assert_eq!(tx.tail_counter(&buf), 64);
}

#[test]
fn lapped_receiver_gets_exactly_the_last_message() {
    let (mut buf, tx) = new_heap_broadcast(64).expect("create");
    let mut rx = BroadcastReceiver::new(0, 64, tx.tail_counter(&buf));
    tx.transmit(&mut buf, 1, &[0u8; 56]).expect("transmit");
    tx.transmit(&mut buf, 2, &[7u8; 20]).expect("transmit");
    let mut received = Vec::new();
    assert_eq!(rx.receive(&buf, &mut received), 1);
    assert_eq!(received.len(), 1);
    assert_eq!((received[0].msg_type, received[0].payload.clone()), (2, vec![7u8; 20]));
    assert_eq!(rx.lapped_count(), 1);
    assert_eq!(rx.receive(&buf, &mut received), 0);
}

#[test]
fn receivers_read_all_messages_independently() {
    let (mut buf, tx) = new_heap_broadcast(TEST_CAPACITY).expect("create");
    let mut fast = BroadcastReceiver::new(0, TEST_CAPACITY, tx.tail_counter(&buf));
    let mut slow = BroadcastReceiver::new(0, TEST_CAPACITY, tx.tail_counter(&buf));
    let mut received = Vec::new();
    for i in 0..8u8 {
        tx.transmit(&mut buf, i as i32, &vec![i; 5 * i as usize]).expect("transmit");
        assert_eq!(fast.receive(&buf, &mut received), 1);
    }
    assert_eq!(fast.receive(&buf, &mut received), 0);
    let mut late = Vec::new();
    assert_eq!(slow.receive(&buf, &mut late), 8);
    assert_eq!(slow.receive(&buf, &mut late), 0);
    for i in 0..8u8 {
        for message in [&received[i as usize], &late[i as usize]] {
            assert_eq!(message.msg_type, i as i32);
            assert_eq!(message.payload, vec![i; 5 * i as usize]);
        }
    }
}
