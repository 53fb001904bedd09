use aeron_rs::agent::image_index::MAX_IMAGES;
use aeron_rs::agent::receiver::{
    announce_image, receiver_id_from, AppendPlan, DataAction, PendingNak, ReceiverAgent, SetupOutcome,
    MAX_PENDING_NAKS_PER_CYCLE,
};
use aeron_rs::client::sub_bridge::{PendingImage, SubscriptionBridge};
use aeron_rs::context::DriverContext;
use aeron_rs::frame::{
    DataHeader, FrameHeader, SetupHeader, SockaddrStorage, CURRENT_VERSION, DATA_FLAG_BEGIN,
    DATA_FLAG_END, DATA_HEADER_LENGTH, FRAME_TYPE_DATA, FRAME_TYPE_SETUP, SETUP_TOTAL_LENGTH,
};
use aeron_rs::term::PARTITION_COUNT;

const TEST_TERM_LENGTH: u32 = 1024;

fn make_setup_header(
    session_id: i32,
    stream_id: i32,
    initial_term_id: i32,
    active_term_id: i32,
    term_length: i32,
    term_offset: i32,
) -> SetupHeader {
    SetupHeader {
        frame_header: FrameHeader {
            frame_length: SETUP_TOTAL_LENGTH as i32,
            version: CURRENT_VERSION,
            flags: 0,
            frame_type: FRAME_TYPE_SETUP,
        },
        term_offset,
        session_id,
        stream_id,
        initial_term_id,
        active_term_id,
        term_length,
        mtu: 1408,
        ttl: 0,
    }
}

fn make_data_header(
    session_id: i32,
    stream_id: i32,
    term_id: i32,
    term_offset: i32,
    payload_len: usize,
) -> DataHeader {
    DataHeader {
        frame_header: FrameHeader {
            frame_length: (DATA_HEADER_LENGTH + payload_len) as i32,
            version: CURRENT_VERSION,
            flags: DATA_FLAG_BEGIN | DATA_FLAG_END,
            frame_type: FRAME_TYPE_DATA,
        },
        term_offset,
        session_id,
        stream_id,
        term_id,
        reserved_value: 0,
    }
}

fn zeroed_source() -> SockaddrStorage {
    SockaddrStorage { bytes: [0u8; 128] }
}

/// A frame that was written into an image's term buffer.
struct Frame {
    session_id: i32,
    stream_id: i32,
    term_id: i32,
    term_offset: u32,
    aligned_length: u32,
    payload: Vec<u8>,
}

/// The subscriber's part of an image.
struct SubscriberImage {
    /// Where reading starts.
    term_id: i32,
    term_offset: u32,
}

/// A receiver with the term buffers of its images.
struct Receiver {
    agent: ReceiverAgent,
    now_ns: i64,
    /// Term length of each image's term buffer.
    buffers: Vec<u32>,
    bridge: SubscriptionBridge<SubscriberImage>,
    frames: Vec<Frame>,
    last_plan: Option<AppendPlan>,
}

impl Receiver {
    fn on_setup(&mut self, setup: &SetupHeader, source: &SockaddrStorage) {
        if let SetupOutcome::Created(idx) = self.agent.on_setup(setup, source, true) {
            assert_eq!(idx, self.buffers.len());
            self.buffers.push(setup.term_length as u32);
            let image = SubscriberImage {
                term_id: setup.active_term_id,
                term_offset: setup.term_offset as u32,
            };
            announce_image(setup, image, &mut self.bridge);
        }
    }

    fn take_subscriber_image(&mut self) -> Option<PendingImage<SubscriberImage>> {
        (0..self.bridge.capacity()).find_map(|idx| self.bridge.try_take(idx))
    }

    fn on_data(&mut self, header: &DataHeader, payload: &[u8], _source: &SockaddrStorage) {
        let now_ns = self.now_ns;
        if let DataAction::Append(plan) = self.agent.on_data(header, now_ns) {
            let aligned_length = ((DATA_HEADER_LENGTH + payload.len() + 31) / 32 * 32) as u32;
            let end = plan.term_offset + aligned_length;
            let fits = end <= self.agent.images[plan.image].term_length;
            if fits {
                self.frames.push(Frame {
                    session_id: header.session_id,
                    stream_id: header.stream_id,
                    term_id: plan.term_id,
                    term_offset: plan.term_offset,
                    aligned_length,
                    payload: payload.to_vec(),
                });
            }
            let end = if fits { Some(end) } else { None };
            self.agent.on_appended(plan.image, plan.term_id, end);
            self.last_plan = Some(plan);
        }
    }

    /// The frames that a subscriber of the first image reads in a row.
    fn poll_fragments(&mut self) -> Vec<&Frame> {
        let image = self.take_subscriber_image().expect("subscriber image").image;
        let (term_id, mut offset) = (image.term_id, image.term_offset);
        let mut polled = Vec::new();
        while let Some(frame) =
            self.frames.iter().find(|f| f.term_id == term_id && f.term_offset == offset)
        {
            offset += frame.aligned_length;
            polled.push(frame);
        }
        polled
    }
}

fn make_receiver() -> Receiver {
    let agent = ReceiverAgent::new(&DriverContext::default(), 77).expect("valid context");
    Receiver {
        agent,
        now_ns: 0,
        buffers: Vec::new(),
        bridge: SubscriptionBridge::new(),
        frames: Vec::new(),
        last_plan: None,
    }
}

#[test]
fn on_setup_creates_image_with_shared_buffer() {
    let mut receiver = make_receiver();
    let source = zeroed_source();
    receiver.agent.max_images = MAX_IMAGES;
    receiver.now_ns = 0;
    receiver.agent.nak_delay_ns = 60_000_000;
    let setup = make_setup_header(42, 7, 0, 0, TEST_TERM_LENGTH as i32, 0);
    receiver.on_setup(&setup, &source);
    assert_eq!(receiver.agent.image_count, 1);
    assert!(receiver.agent.images[0].active);
    assert_eq!(receiver.agent.images[0].session_id, 42);
    assert_eq!(receiver.agent.images[0].initial_term_id, 0);
    assert_eq!(receiver.agent.images[0].active_term_id, 0);
    assert_eq!(receiver.agent.images[0].term_length, TEST_TERM_LENGTH);
    assert_eq!(receiver.buffers.len(), 1);
    assert_eq!(receiver.buffers[0], TEST_TERM_LENGTH);
    // Verify subscriber image was deposited in bridge.
    let sub_img = receiver.take_subscriber_image();
    assert!(sub_img.is_some());
    let sub_img = sub_img.expect("checked above");
    assert_eq!((sub_img.session_id, sub_img.stream_id), (42, 7));
    assert_eq!((sub_img.image.term_id, sub_img.image.term_offset), (0, 0));
}

#[test]
fn on_setup_rejects_invalid_term_length() {
    let mut receiver = make_receiver();
    let source = zeroed_source();
    receiver.agent.max_images = MAX_IMAGES;
    receiver.now_ns = 0;
    receiver.agent.nak_delay_ns = 60_000_000;
    // Not power-of-two.
    let setup = make_setup_header(1, 1, 0, 0, 100, 0);
    receiver.on_setup(&setup, &source);
    assert_eq!(receiver.agent.image_count, 0); // rejected
    assert!(receiver.buffers.is_empty());
}

#[test]
fn on_setup_rejects_too_small_term_length() {
    let mut receiver = make_receiver();
    let source = zeroed_source();
    receiver.agent.max_images = MAX_IMAGES;
    receiver.now_ns = 0;
    receiver.agent.nak_delay_ns = 60_000_000;
    // Too small (< 32).
    let setup = make_setup_header(1, 1, 0, 0, 16, 0);
    receiver.on_setup(&setup, &source);
    assert_eq!(receiver.agent.image_count, 0);
}

#[test]
fn on_setup_respects_max_images() {
    let mut receiver = make_receiver();
    let source = zeroed_source();
    receiver.agent.max_images = 2; // cap at 2
    receiver.now_ns = 0;
    receiver.agent.nak_delay_ns = 60_000_000;
    for i in 0..5 {
        let setup = make_setup_header(i, i, 0, 0, TEST_TERM_LENGTH as i32, 0);
        receiver.on_setup(&setup, &source);
    }
    assert_eq!(receiver.agent.image_count, 2); // capped at max_images
}

#[test]
fn on_data_writes_frame_into_image_buffer() {
    let mut receiver = make_receiver();
    let source = zeroed_source();
    receiver.agent.max_images = MAX_IMAGES;
    receiver.now_ns = 0;
    receiver.agent.nak_delay_ns = 60_000_000;
    // Create image via setup.
    let setup = make_setup_header(42, 7, 0, 0, TEST_TERM_LENGTH as i32, 0);
    receiver.on_setup(&setup, &source);

    // Send data frame.
    let payload = [0xCA, 0xFE, 0xBA, 0xBE];
    let dh = make_data_header(42, 7, 0, 0, payload.len());
    receiver.on_data(&dh, &payload, &source);

    // Verify data was written into the shared image buffer via subscriber poll.
    let polled = receiver.poll_fragments();
    assert_eq!(polled.len(), 1);
    assert_eq!(polled[0].session_id, 42);
    assert_eq!(polled[0].stream_id, 7);
    assert_eq!(polled[0].payload, &[0xCA, 0xFE, 0xBA, 0xBE]);
}

#[test]
fn on_data_advances_consumption_from_append() {
    let mut receiver = make_receiver();
    let source = zeroed_source();
    receiver.agent.max_images = MAX_IMAGES;
    receiver.now_ns = 0;
    receiver.agent.nak_delay_ns = 60_000_000;
    let setup = make_setup_header(42, 7, 0, 0, TEST_TERM_LENGTH as i32, 0);
    receiver.on_setup(&setup, &source);

    // Header-only frame: 32 bytes, aligned 32.
    let dh = make_data_header(42, 7, 0, 0, 0);
    receiver.on_data(&dh, &[], &source);
    // Consumption should reflect aligned frame end (32).
    assert_eq!(receiver.agent.images[0].consumption_term_offset, 32);
    assert_eq!(receiver.agent.images[0].expected_term_offset, 32);
}

#[test]
fn on_data_multiple_frames_sequential() {
    let mut receiver = make_receiver();
    let source = zeroed_source();
    receiver.agent.max_images = MAX_IMAGES;
    receiver.now_ns = 0;
    receiver.agent.nak_delay_ns = 60_000_000;
    let setup = make_setup_header(42, 7, 0, 0, TEST_TERM_LENGTH as i32, 0);
    receiver.on_setup(&setup, &source);

    // Frame 1 at offset 0 (header-only, 32 bytes).
    let dh1 = make_data_header(42, 7, 0, 0, 0);
    receiver.on_data(&dh1, &[], &source);

    // Frame 2 at offset 32 (header-only, 32 bytes).
    let dh2 = make_data_header(42, 7, 0, 32, 0);
    receiver.on_data(&dh2, &[], &source);
    assert_eq!(receiver.agent.images[0].consumption_term_offset, 64);

    // Poll should find 2 frames.
    let frame_count = receiver.poll_fragments().len();
    assert_eq!(frame_count, 2);
}

#[test]
fn on_data_term_rotation_cleans_entering_partition() {
    let mut receiver = make_receiver();
    let source = zeroed_source();
    receiver.agent.max_images = MAX_IMAGES;
    receiver.now_ns = 0;
    receiver.agent.nak_delay_ns = 60_000_000;
    let setup = make_setup_header(42, 7, 0, 0, TEST_TERM_LENGTH as i32, 0);
    receiver.on_setup(&setup, &source);

    // Write a frame in term 0.
    let dh0 = make_data_header(42, 7, 0, 0, 0);
    receiver.on_data(&dh0, &[], &source);

    // Now receive data in term 1 - should trigger rotation.
    let dh1 = make_data_header(42, 7, 1, 0, 0);
    receiver.on_data(&dh1, &[], &source);

    assert_eq!(receiver.agent.images[0].active_term_id, 1);
    assert_eq!(receiver.agent.images[0].consumption_term_id, 1);

    // The partition of term 1 was to be cleaned before the write.
    let plan = receiver.last_plan.expect("append");
    assert_eq!((plan.first_term_to_clean, plan.terms_to_clean), (1, 1));
    assert_eq!(receiver.frames.len(), 2);
}

#[test]
fn on_data_stale_term_rejected() {
    let mut receiver = make_receiver();
    let source = zeroed_source();
    receiver.agent.max_images = MAX_IMAGES;
    receiver.now_ns = 0;
    receiver.agent.nak_delay_ns = 60_000_000;
    // Start at term 4, so terms 0-3 are all stale (>= PARTITION_COUNT behind).
    let setup = make_setup_header(
        42, 7, 0, PARTITION_COUNT as i32, TEST_TERM_LENGTH as i32, 0,
    );
    receiver.on_setup(&setup, &source);

    // Data for term 0 is PARTITION_COUNT behind active (term 4) - stale.
    let dh = make_data_header(42, 7, 0, 0, 0);
    receiver.on_data(&dh, &[], &source);

    // Consumption should not advance (stale frame rejected).
    assert_eq!(receiver.agent.images[0].consumption_term_offset, 0);

    // Stale frame should not be visible via subscriber poll.
    // The subscriber starts at position for term 4, offset 0. No committed
    // frames should be visible since the stale write was rejected.
    let frame_count = receiver.poll_fragments().len();
    assert_eq!(frame_count, 0, "stale frame should not be written");
}

#[test]
fn on_data_recent_past_term_accepted() {
    let mut receiver = make_receiver();
    let source = zeroed_source();
    receiver.agent.max_images = MAX_IMAGES;
    receiver.now_ns = 0;
    receiver.agent.nak_delay_ns = 60_000_000;
    // Start at term 2, initial 0.
    let setup = make_setup_header(42, 7, 0, 2, TEST_TERM_LENGTH as i32, 0);
    receiver.on_setup(&setup, &source);

    // Data for term 1 is 1 behind active (within PARTITION_COUNT) - accepted.
    let dh = make_data_header(42, 7, 1, 0, 0);
    receiver.on_data(&dh, &[], &source);

    // Frame should have been written .
    assert_eq!(receiver.frames.len(), 1, "recent-past frame should be written");
}

#[test]
fn on_data_multi_term_jump_cleans_all_entering() {
    let mut receiver = make_receiver();
    let source = zeroed_source();
    receiver.agent.max_images = MAX_IMAGES;
    receiver.now_ns = 0;
    receiver.agent.nak_delay_ns = 60_000_000;
    let setup = make_setup_header(42, 7, 0, 0, TEST_TERM_LENGTH as i32, 0);
    receiver.on_setup(&setup, &source);

    // Write data in term 0.
    let dh0 = make_data_header(42, 7, 0, 0, 0);
    receiver.on_data(&dh0, &[], &source);

    // Jump to term 3 (skipping 1 and 2).
    let dh3 = make_data_header(42, 7, 3, 0, 0);
    receiver.on_data(&dh3, &[], &source);

    assert_eq!(receiver.agent.images[0].active_term_id, 3);

    // The partitions of terms 1 to 3 were to be cleaned before the write.
    let plan = receiver.last_plan.expect("append");
    assert_eq!((plan.first_term_to_clean, plan.terms_to_clean), (1, 3));
    assert_eq!(receiver.frames.len(), 2);
}

// NAK generation

#[test]
fn gap_produces_pending_nak() {
    let mut receiver = make_receiver();
    let source = zeroed_source();
    receiver.agent.max_images = MAX_IMAGES;
    receiver.now_ns = 100_000_000; // 100ms
    receiver.agent.nak_delay_ns = 0; // no coalescing delay
    let setup = make_setup_header(42, 7, 0, 0, TEST_TERM_LENGTH as i32, 0);
    receiver.on_setup(&setup, &source);

    // Frame at offset 0 (32 bytes aligned).
    let dh0 = make_data_header(42, 7, 0, 0, 0);
    receiver.on_data(&dh0, &[], &source);

    // Skip offset 32, send frame at offset 64 - gap of 32 bytes.
    let dh2 = make_data_header(42, 7, 0, 64, 0);
    receiver.on_data(&dh2, &[], &source);

    assert_eq!(receiver.agent.nak_queue.len(), 1, "one NAK should be queued");
    assert_eq!(receiver.agent.nak_queue[0].session_id, 42);
    assert_eq!(receiver.agent.nak_queue[0].stream_id, 7);
    assert_eq!(receiver.agent.nak_queue[0].active_term_id, 0);
    assert_eq!(receiver.agent.nak_queue[0].term_offset, 32); // start of the gap
    assert_eq!(receiver.agent.nak_queue[0].length, 32);      // gap size
}

#[test]
fn no_nak_for_in_order_data() {
    let mut receiver = make_receiver();
    let source = zeroed_source();
    receiver.agent.max_images = MAX_IMAGES;
    receiver.now_ns = 100_000_000;
    receiver.agent.nak_delay_ns = 0;
    let setup = make_setup_header(42, 7, 0, 0, TEST_TERM_LENGTH as i32, 0);
    receiver.on_setup(&setup, &source);

    // Sequential frames: no gap.
    let dh0 = make_data_header(42, 7, 0, 0, 0);
    receiver.on_data(&dh0, &[], &source);
    let dh1 = make_data_header(42, 7, 0, 32, 0);
    receiver.on_data(&dh1, &[], &source);
    let dh2 = make_data_header(42, 7, 0, 64, 0);
    receiver.on_data(&dh2, &[], &source);

    assert_eq!(receiver.agent.nak_queue.len(), 0, "no NAK for in-order data");
}

#[test]
fn nak_coalescing_suppresses_within_delay() {
    let mut receiver = make_receiver();
    let source = zeroed_source();
    receiver.agent.max_images = MAX_IMAGES;
    receiver.now_ns = 100_000_000; // 100ms
    receiver.agent.nak_delay_ns = 60_000_000; // 60ms coalescing
    let setup = make_setup_header(42, 7, 0, 0, TEST_TERM_LENGTH as i32, 0);
    receiver.on_setup(&setup, &source);

    // First gap - should produce NAK (time_of_last_nak_ns starts at 0,
    // 100ms - 0ms = 100ms >= 60ms delay).
    let dh0 = make_data_header(42, 7, 0, 0, 0);
    receiver.on_data(&dh0, &[], &source);
    let dh2 = make_data_header(42, 7, 0, 64, 0);
    receiver.on_data(&dh2, &[], &source);
    assert_eq!(receiver.agent.nak_queue.len(), 1, "first gap should produce NAK");

    // Second gap shortly after (within delay).
    // Simulate: now_ns = 100ms + 10ms = 110ms, last NAK was at 100ms.
    // Elapsed = 10ms < 60ms delay - should be suppressed.
    receiver.agent.nak_queue.clear();
    receiver.agent.max_images = MAX_IMAGES;
    receiver.now_ns = 110_000_000;
    receiver.agent.nak_delay_ns = 60_000_000;
    // Another gap at different offset (skip 96, send at 128).
    let dh4 = make_data_header(42, 7, 0, 128, 0);
    receiver.on_data(&dh4, &[], &source);
    assert_eq!(receiver.agent.nak_queue.len(), 0, "second gap within delay should be suppressed");
}

#[test]
fn nak_coalescing_allows_after_delay() {
    let mut receiver = make_receiver();
    let source = zeroed_source();
    receiver.agent.max_images = MAX_IMAGES;
    receiver.now_ns = 100_000_000;
    receiver.agent.nak_delay_ns = 60_000_000;
    let setup = make_setup_header(42, 7, 0, 0, TEST_TERM_LENGTH as i32, 0);
    receiver.on_setup(&setup, &source);

    // First gap - NAK generated.
    let dh0 = make_data_header(42, 7, 0, 0, 0);
    receiver.on_data(&dh0, &[], &source);
    let dh2 = make_data_header(42, 7, 0, 64, 0);
    receiver.on_data(&dh2, &[], &source);
    assert_eq!(receiver.agent.nak_queue.len(), 1);

    // After delay elapses: now_ns = 100ms + 70ms = 170ms.
    // Elapsed = 170ms - 100ms = 70ms >= 60ms - should allow.
    receiver.agent.nak_queue.clear();
    receiver.agent.max_images = MAX_IMAGES;
    receiver.now_ns = 170_000_000;
    receiver.agent.nak_delay_ns = 60_000_000;
    // Another gap (skip 96, send at 128).
    let dh4 = make_data_header(42, 7, 0, 128, 0);
    receiver.on_data(&dh4, &[], &source);
    assert_eq!(receiver.agent.nak_queue.len(), 1, "NAK should be allowed after delay elapsed");
}

#[test]
fn nak_only_for_active_term() {
    let mut receiver = make_receiver();
    let source = zeroed_source();
    receiver.agent.max_images = MAX_IMAGES;
    receiver.now_ns = 100_000_000;
    receiver.agent.nak_delay_ns = 0;
    // Start at term 1 with some data already consumed.
    let setup = make_setup_header(42, 7, 0, 1, TEST_TERM_LENGTH as i32, 0);
    receiver.on_setup(&setup, &source);

    // Write frame at offset 0 in term 1 (active term).
    let dh0 = make_data_header(42, 7, 1, 0, 0);
    receiver.on_data(&dh0, &[], &source);

    // Send a frame in term 0 (past term) with a gap - should NOT NAK
    // because term 0 is not the active term.
    let dh_old = make_data_header(42, 7, 0, 64, 0);
    receiver.on_data(&dh_old, &[], &source);

    assert_eq!(receiver.agent.nak_queue.len(), 0, "no NAK for gap in non-active term");
}

#[test]
fn nak_queue_overflow_drops_silently() {
    let mut receiver = make_receiver();
    let source = zeroed_source();

    // Pre-fill NAK queue to capacity.
    while receiver.agent.nak_queue.len() < MAX_PENDING_NAKS_PER_CYCLE {
        receiver.agent.nak_queue.push(PendingNak {
            dest_addr: zeroed_source(),
            session_id: 1,
            stream_id: 1,
            active_term_id: 0,
            term_offset: 0,
            length: 32,
        });
    }

    receiver.agent.max_images = MAX_IMAGES;
    receiver.now_ns = 100_000_000;
    receiver.agent.nak_delay_ns = 0;
    let setup = make_setup_header(42, 7, 0, 0, TEST_TERM_LENGTH as i32, 0);
    receiver.on_setup(&setup, &source);

    // Create a gap - should be silently dropped (queue full).
    let dh0 = make_data_header(42, 7, 0, 0, 0);
    receiver.on_data(&dh0, &[], &source);
    let dh2 = make_data_header(42, 7, 0, 64, 0);
    receiver.on_data(&dh2, &[], &source);

    // Queue length should not exceed capacity.
    assert_eq!(receiver.agent.nak_queue.len(), MAX_PENDING_NAKS_PER_CYCLE, "queue should not grow past capacity");
}

// feedback

#[test]
fn status_messages_are_sent_at_intervals() {
    let mut receiver = make_receiver();
    let source = zeroed_source();
    receiver.agent.add_endpoint();
    receiver.agent.sm_interval_ns = 1_000;
    receiver.on_setup(&make_setup_header(42, 7, 0, 0, TEST_TERM_LENGTH as i32, 0), &source);
    receiver.on_data(&make_data_header(42, 7, 0, 0, 0), &[], &source);
    let batch = receiver.agent.send_control_messages(5_000);
    assert_eq!(batch.sms.len(), 1);
    assert_eq!(batch.work_count, 1);
    let sm = batch.sms[0].sm;
    assert_eq!((sm.session_id, sm.stream_id), (42, 7));
    assert_eq!((sm.consumption_term_id, sm.consumption_term_offset), (0, 32));
    assert_eq!(sm.receiver_id, 77);
    assert!(receiver.agent.send_control_messages(6_000).sms.is_empty());
    assert_eq!(receiver.agent.send_control_messages(6_001).sms.len(), 1);
}

#[test]
fn noted_naks_are_sent_once() {
    let mut receiver = make_receiver();
    let source = zeroed_source();
    receiver.agent.add_endpoint();
    receiver.now_ns = 100_000_000;
    receiver.on_setup(&make_setup_header(42, 7, 0, 0, TEST_TERM_LENGTH as i32, 0), &source);
    receiver.on_data(&make_data_header(42, 7, 0, 64, 0), &[], &source);
    assert_eq!(receiver.agent.nak_queue.len(), 1);
    let batch = receiver.agent.send_control_messages(100_000_001);
    assert_eq!(batch.naks.len(), 1);
    assert_eq!((batch.naks[0].nak.term_offset, batch.naks[0].nak.length), (0, 64));
    assert!(receiver.agent.nak_queue.is_empty());
    assert!(receiver.agent.send_control_messages(100_000_002).naks.is_empty());
}

#[test]
fn removed_image_is_forgotten_and_others_stay() {
    let mut receiver = make_receiver();
    let source = zeroed_source();
    for i in 0..3 {
        receiver.on_setup(&make_setup_header(i, i, 0, 0, TEST_TERM_LENGTH as i32, 0), &source);
    }
    assert!(receiver.agent.remove_image(0, 0));
    assert!(!receiver.agent.remove_image(0, 0));
    assert_eq!(receiver.agent.image_count, 2);
    assert_eq!(receiver.agent.on_data(&make_data_header(0, 0, 0, 0, 0), 0), DataAction::NoImage);
    for i in 1..3 {
        let action = receiver.agent.on_data(&make_data_header(i, i, 0, 0, 0), 0);
        assert!(matches!(action, DataAction::Append(_)));
    }
}

#[test]
fn setup_without_room_in_memory_makes_no_image() {
    let mut receiver = make_receiver();
    let setup = make_setup_header(1, 1, 0, 0, TEST_TERM_LENGTH as i32, 0);
    assert!(receiver.agent.wants_image(&setup));
    let outcome = receiver.agent.on_setup(&setup, &zeroed_source(), false);
    assert_eq!(outcome, SetupOutcome::AllocationFailed);
    assert_eq!(receiver.agent.image_count, 0);
    receiver.on_setup(&setup, &zeroed_source());
    assert!(!receiver.agent.wants_image(&setup));
    let again = receiver.agent.on_setup(&setup, &zeroed_source(), true);
    assert_eq!(again, SetupOutcome::Ignored);
}

#[test]
fn receiver_ids_come_from_chance_or_the_process() {
    let bytes = [1, 2, 3, 4, 5, 6, 7, 8];
    assert_eq!(receiver_id_from(Some(bytes), 9), i64::from_ne_bytes(bytes));
    assert_ne!(receiver_id_from(None, 9), receiver_id_from(None, 10));
}

#[test]
fn full_table_keeps_every_other_image() {
    // Sessions and streams of both kinds: spread over the index, and in one run.
    for stride in [1, 7919] {
        let mut agent = ReceiverAgent::new(&DriverContext::default(), 77).expect("valid context");
        agent.max_images = MAX_IMAGES;
        let source = zeroed_source();
        for i in 0..MAX_IMAGES as i32 {
            let setup = make_setup_header(i * stride, i, 0, 0, TEST_TERM_LENGTH as i32, 0);
            assert_eq!(
                agent.on_setup(&setup, &source, true),
                SetupOutcome::Created(i as usize)
            );
        }
        assert_eq!(agent.image_count, MAX_IMAGES);
        let mut gone = Vec::new();
        for i in [100, 0, 255, 17, 254, 1] {
            assert!(agent.remove_image(i * stride, i));
            gone.push(i);
            for k in 0..MAX_IMAGES as i32 {
                let action = agent.on_data(&make_data_header(k * stride, k, 0, 0, 0), 0);
                if gone.contains(&k) {
                    assert_eq!(action, DataAction::NoImage);
                } else {
                    assert!(matches!(action, DataAction::Append(_)), "image {k} is lost");
                }
            }
        }
        // A freed place is taken again.
        let setup = make_setup_header(100 * stride, 100, 0, 0, TEST_TERM_LENGTH as i32, 0);
        assert_eq!(
            agent.on_setup(&setup, &source, true),
            SetupOutcome::Created(MAX_IMAGES - gone.len())
        );
    }
}
