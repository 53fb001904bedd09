use aeron_rs::cnc::ring_buffer::{
    new_heap_ring_buffer, required_buffer_size, MpscRingBuffer, RingBufferError,
    RECORD_HEADER_LENGTH,
};

const TEST_CAPACITY: usize = 1024;

#[test]
fn create_ring_buffer() {
    let (_, rb) = new_heap_ring_buffer(TEST_CAPACITY).expect("create");
    assert_eq!(rb.capacity(), TEST_CAPACITY);
    assert_eq!(rb.max_message_length(), TEST_CAPACITY - RECORD_HEADER_LENGTH);
}

#[test]
fn invalid_capacity_not_power_of_two() {
    assert_eq!(
        new_heap_ring_buffer(100).unwrap_err(),
        RingBufferError::InvalidCapacity,
    );
}

#[test]
fn invalid_capacity_too_small() {
    assert_eq!(
        new_heap_ring_buffer(16).unwrap_err(),
        RingBufferError::InvalidCapacity,
    );
}

#[test]
fn write_and_read_single_message() {
    let (mut buf, rb) = new_heap_ring_buffer(TEST_CAPACITY).expect("create");
    let payload = [1u8, 2, 3, 4];
    rb.write(&mut buf, 42, &payload).expect("write");

    let mut received = Vec::new();
    let count = rb.read(&mut buf, &mut received);

    assert_eq!(count, 1);
    assert_eq!(received.len(), 1);
    assert_eq!(received[0].msg_type, 42);
    assert_eq!(received[0].payload, &[1, 2, 3, 4]);
}

#[test]
fn write_and_read_multiple_messages() {
    let (mut buf, rb) = new_heap_ring_buffer(TEST_CAPACITY).expect("create");

    for i in 0..10 {
        let payload = (i as u32).to_le_bytes();
        rb.write(&mut buf, i + 1, &payload).expect("write");
    }

    let mut received = Vec::new();
    let count = rb.read(&mut buf, &mut received);

    assert_eq!(count, 10);
    for i in 0..10 {
        assert_eq!(received[i].msg_type, i as i32 + 1);
        let val = u32::from_le_bytes(received[i].payload[..4].try_into().unwrap());
        assert_eq!(val, i as u32);
    }
}

#[test]
fn read_empty_returns_zero() {
    let (mut buf, rb) = new_heap_ring_buffer(TEST_CAPACITY).expect("create");
    let mut received = Vec::new();
    let count = rb.read(&mut buf, &mut received);
    assert!(received.is_empty());
    assert_eq!(count, 0);
}

#[test]
fn ring_full_returns_error() {
    // Small ring - 32 bytes capacity.
    let (mut buf, rb) = new_heap_ring_buffer(32).expect("create");
    // Max payload is 32 - 8 = 24 bytes.
    let payload = [0u8; 24];
    rb.write(&mut buf, 1, &payload).expect("first write");
    // Ring should now be full.
    assert_eq!(rb.write(&mut buf, 1, &[0]), Err(RingBufferError::Full));
}

#[test]
fn ring_buffer_message_too_large() {
    let (mut buf, rb) = new_heap_ring_buffer(64).expect("create");
    let payload = [0u8; 64]; // payload + header > capacity
    assert_eq!(rb.write(&mut buf, 1, &payload), Err(RingBufferError::MessageTooLarge));
}

#[test]
fn wrap_around() {
    // 128-byte ring.
    let (mut buf, rb) = new_heap_ring_buffer(128).expect("create");
    let payload = [0xAAu8; 20]; // 20 + 8 = 28, aligned to 32.

    // Write 3 messages (3 * 32 = 96 bytes).
    rb.write(&mut buf, 1, &payload).expect("write 1");
    rb.write(&mut buf, 2, &payload).expect("write 2");
    rb.write(&mut buf, 3, &payload).expect("write 3");

    // Read all 3 to free space.
    let count = rb.read(&mut buf, &mut Vec::new());
    assert_eq!(count, 3);

    // Now head is at 96, tail at 96. Write 4 more to force wrap.
    rb.write(&mut buf, 4, &payload).expect("write 4 - last 32 bytes");
    // Next write should wrap.
    rb.write(&mut buf, 5, &payload).expect("write 5 - wrapped");

    let mut messages = Vec::new();
    let count = rb.read(&mut buf, &mut messages);
    let received: Vec<i32> = messages.iter().map(|message| message.msg_type).collect();

    assert!(count >= 1, "should read at least 1 message after wrap");
    assert!(received.contains(&4) || received.contains(&5));
}

#[test]
fn size_tracks_usage() {
    let (mut buf, rb) = new_heap_ring_buffer(TEST_CAPACITY).expect("create");
    assert_eq!(rb.size(&buf), 0);

    let payload = [0u8; 4]; // 4 + 8 = 12, aligned to 32.
    rb.write(&mut buf, 1, &payload).expect("write");
    assert_eq!(rb.size(&buf), 32);

    rb.write(&mut buf, 2, &payload).expect("write");
    assert_eq!(rb.size(&buf), 64);

    rb.read(&mut buf, &mut Vec::new());
    assert_eq!(rb.size(&buf), 0);
}

#[test]
fn ring_buffer_display_errors() {
    let e = RingBufferError::Full;
    assert!(e.to_string().contains("full"));
}

#[test]
fn required_buffer_size_correct() {
    assert_eq!(required_buffer_size(1024), 1024 + 128);
}

#[test]
fn producers_that_take_turns_lose_nothing() {
    let total = required_buffer_size(4096);
    let mut buffer = vec![0u8; total];
    let rb = MpscRingBuffer::new(&buffer, 0, 4096).unwrap();

    let num_producers = 4;
    let msgs_per_producer = 100;

    // The producers take turns, one message at a time, and retry when full.
    let mut sent = [0usize; 4];
    let expected_total = num_producers * msgs_per_producer;
    let mut total_received = 0;
    let mut last_seen = [None; 4];

    while total_received < expected_total {
        for producer_id in 0..num_producers {
            if sent[producer_id] < msgs_per_producer {
                let payload = ((producer_id * 1000 + sent[producer_id]) as u32).to_le_bytes();
                match rb.write(&mut buffer, 1, &payload) {
                    Ok(()) => sent[producer_id] += 1,
                    Err(RingBufferError::Full) => {}
                    Err(e) => panic!("unexpected error: {e:?}"),
                }
            }
        }
        // The consumer reads only when the ring has filled up, or at the end.
        let done = sent.iter().all(|&n| n == msgs_per_producer);
        if done || rb.size(&buffer) == 4096 {
            let mut received = Vec::new();
            let count = rb.read(&mut buffer, &mut received);
            assert_eq!(count as usize, received.len());
            for message in &received {
                assert_eq!(message.msg_type, 1);
                assert_eq!(message.payload.len(), 4);
                let value = u32::from_le_bytes(message.payload[..4].try_into().unwrap());
                let producer_id = (value / 1000) as usize;
                // Messages of one producer keep their order.
                assert!(last_seen[producer_id] < Some(value));
                last_seen[producer_id] = Some(value);
            }
            total_received += count as usize;
        }
    }

    assert_eq!(total_received, expected_total);
}

#[test]
fn messages_across_the_end_keep_their_order() {
    let (mut buf, rb) = new_heap_ring_buffer(128).expect("create");
    let mut received = Vec::new();
    let mut next = 1;
    let mut expected = 1;
    for _ in 0..50 {
        let payload = vec![next as u8; 5 + 7 * (next as usize % 4)];
        if rb.write(&mut buf, next, &payload) == Err(RingBufferError::Full) {
            rb.read(&mut buf, &mut received);
            for message in received.drain(..) {
                assert_eq!(message.msg_type, expected);
                assert!(message.payload.iter().all(|&b| b == expected as u8));
                expected += 1;
            }
            rb.write(&mut buf, next, &payload).expect("write after read");
        }
        next += 1;
    }
    rb.read(&mut buf, &mut received);
    assert_eq!(expected + received.len() as i32, next);
}

#[test]
fn claim_pads_the_end_of_the_ring() {
    let (_, rb) = new_heap_ring_buffer(128).expect("create");
    let claim = rb.claim(96, 96, 40).expect("room");
    assert_eq!((claim.pad_index, claim.pad_length), (96, 32));
    assert_eq!((claim.index, claim.aligned_length, claim.new_tail), (0, 64, 192));
    let claim = rb.claim(0, 96, 24).expect("room");
    assert_eq!((claim.pad_length, claim.index, claim.new_tail), (0, 96, 128));
}

#[test]
fn every_ring_error_has_its_text() {
    assert!(RingBufferError::MessageTooLarge.to_string().contains("large"));
    assert!(RingBufferError::InvalidCapacity.to_string().contains("power-of-two"));
}

#[test]
fn message_of_type_zero_is_read_back() {
    let (mut buf, rb) = new_heap_ring_buffer(TEST_CAPACITY).expect("create");
    rb.write(&mut buf, 0, &[1, 2, 3, 4]).expect("write");
    rb.write(&mut buf, 7, &[5]).expect("write");
    let mut received = Vec::new();
    assert_eq!(rb.read(&mut buf, &mut received), 2);
    assert_eq!((received[0].msg_type, received[0].payload.clone()), (0, vec![1, 2, 3, 4]));
    assert_eq!((received[1].msg_type, received[1].payload.clone()), (7, vec![5]));
    assert_eq!(rb.read(&mut buf, &mut received), 0);
}

#[test]
fn refused_write_changes_nothing() {
    let (mut buf, rb) = new_heap_ring_buffer(64).expect("create");
    rb.write(&mut buf, 1, &[9u8; 40]).expect("write");
    let before = buf.clone();
    assert_eq!(rb.write(&mut buf, 1, &[8u8; 40]), Err(RingBufferError::Full));
    assert_eq!(buf, before);
}
