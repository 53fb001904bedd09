use aeron_rs::agent::sender::{
    is_transmitted, PublicationEntry, PublicationKind, PublicationState, SenderAgent,
};
use aeron_rs::context::DriverContext;

const TEST_TERM_LENGTH: u32 = 1024;
const TEST_MTU: u32 = 1408;

fn make_local_entry(term_length: u32) -> PublicationEntry {
    PublicationEntry::new(PublicationKind::Local, 0, 42, 7, 0, term_length, TEST_MTU, None)
}

/// A log of a publication: lengths of the frames that wait to be sent.
struct Log {
    waiting: Vec<u32>,
    sender_position: i64,
    pub_position: i64,
}

impl Log {
    fn new() -> Self {
        Log { waiting: Vec::new(), sender_position: 0, pub_position: 0 }
    }

    fn offer(&mut self, payload: &[u8]) {
        let length = ((32 + payload.len() + 31) / 32 * 32) as u32;
        self.waiting.push(length);
        self.pub_position += length as i64;
    }

    fn sender_scan(&mut self, limit: u32) -> u32 {
        let mut count = 0;
        let mut left = limit;
        while !self.waiting.is_empty() && self.waiting[0] <= left {
            let length = self.waiting.remove(0);
            left -= length;
            self.sender_position += length as i64;
            count += 1;
        }
        count
    }

    fn state(&self) -> PublicationState {
        PublicationState {
            active_term_id: 0,
            term_offset: self.pub_position as u32,
            sender_position: self.sender_position,
            pub_position: self.pub_position,
        }
    }
}

// sender_limit initialization

#[test]
fn sender_limit_initialized_to_term_length() {
    let entry = make_local_entry(TEST_TERM_LENGTH);
    assert_eq!(entry.sender_limit(), TEST_TERM_LENGTH as i64);
}

// update_sender_limit_from_sm

#[test]
fn update_sender_limit_advances_forward() {
    let mut entry = make_local_entry(TEST_TERM_LENGTH);
    // Initial limit = 1024. SM says consumption at 0 + window 2048 -> 2048.
    entry.update_sender_limit_from_sm(0, 0, 2048);
    assert_eq!(entry.sender_limit(), 2048);
}

#[test]
fn update_sender_limit_rejects_backward() {
    let mut entry = make_local_entry(TEST_TERM_LENGTH);
    // Advance to 4096.
    entry.update_sender_limit_from_sm(0, 0, 4096);
    assert_eq!(entry.sender_limit(), 4096);
    // SM with lower proposed limit (512) should not regress.
    entry.update_sender_limit_from_sm(0, 0, 512);
    assert_eq!(entry.sender_limit(), 4096);
}

#[test]
fn update_sender_limit_advances_incrementally() {
    let mut entry = make_local_entry(TEST_TERM_LENGTH);
    // Simulate progressive SM with advancing consumption.
    entry.update_sender_limit_from_sm(0, 512, 1024);
    // consumption_position = 512, proposed = 512 + 1024 = 1536.
    assert_eq!(entry.sender_limit(), 1536);

    entry.update_sender_limit_from_sm(0, 1024, 1024);
    // proposed = 1024 + 1024 = 2048. Greater than 1536, advances.
    assert_eq!(entry.sender_limit(), 2048);
}

#[test]
fn update_sender_limit_with_wrapping_term_id() {
    // initial_term_id = 0, consumption at term_id=2, offset=0.
    let mut entry = make_local_entry(TEST_TERM_LENGTH);
    // consumption_position = 2 * 1024 = 2048, proposed = 2048 + 4096 = 6144.
    entry.update_sender_limit_from_sm(2, 0, 4096);
    assert_eq!(entry.sender_limit(), 6144);
}

#[test]
fn update_sender_limit_equal_is_noop() {
    let mut entry = make_local_entry(TEST_TERM_LENGTH);
    // Advance to 2048.
    entry.update_sender_limit_from_sm(0, 0, 2048);
    assert_eq!(entry.sender_limit(), 2048);
    // Same value -> no change (diff = 0, not > 0).
    entry.update_sender_limit_from_sm(0, 0, 2048);
    assert_eq!(entry.sender_limit(), 2048);
}

// flow control clamping in scan

#[test]
fn flow_control_allows_scan_within_limit() {
    let entry = make_local_entry(TEST_TERM_LENGTH);
    // Offer one frame.
    let mut log = Log::new();
    log.offer(&[0xAB; 4]);

    // sender_limit = 1024 (term_length), sender_position = 0.
    let available = entry.sender_limit().wrapping_sub(log.sender_position);
    assert!(available > 0);

    let limit = entry.scan_limit(log.state(), 1);
    let count = log.sender_scan(limit);
    assert_eq!(count, 1, "frame should be scanned when within sender_limit");
}

#[test]
fn flow_control_blocks_scan_when_at_limit() {
    let entry = make_local_entry(64);
    // Offer two frames to fill the term (64 bytes = 2 x 32-byte headers).
    let mut log = Log::new();
    log.offer(&[]);
    log.offer(&[]);

    // Scan everything to advance sender_position to 64.
    log.sender_scan(u32::MAX);
    assert_eq!(log.sender_position, 64);

    // sender_limit was initialized to 64 (term_length).
    // available = 64 - 64 = 0, so scan should be blocked.
    let available = entry.sender_limit().wrapping_sub(log.sender_position);
    assert_eq!(available, 0);
    log.offer(&[]);
    assert_eq!(entry.scan_limit(log.state(), 1), 0);
}

#[test]
fn flow_control_partial_window() {
    // Set sender_limit to 48 (less than one full frame = 32 header + payload).
    let mut entry = make_local_entry(TEST_TERM_LENGTH);
    entry.sender_limit = 48; // Only 48 bytes of window.

    // Offer a frame (32 bytes aligned), and more behind it.
    let mut log = Log::new();
    log.offer(&[]);
    log.offer(&[0; 100]);

    // available = 48 - 0 = 48, which < mtu (1408).
    // Scan limit should be 48. Frame is 32 bytes, fits within 48.
    let available = entry.sender_limit().wrapping_sub(log.sender_position);
    assert_eq!(available, 48);
    let limit = entry.scan_limit(log.state(), 1);
    assert_eq!(limit, 48);

    let count = log.sender_scan(limit);
    assert_eq!(count, 1, "frame fits within partial window");
}

// SM processing updates sender_limit

#[test]
fn sm_fields_update_sender_limit_correctly() {
    let mut entry = make_local_entry(TEST_TERM_LENGTH);
    // initial_term_id = 0, term_length = 1024.
    // SM: consumption_term_id=1, consumption_term_offset=512, receiver_window=2048.
    // consumption_position = 1*1024 + 512 = 1536.
    // proposed = 1536 + 2048 = 3584.
    entry.update_sender_limit_from_sm(1, 512, 2048);
    assert_eq!(entry.sender_limit(), 3584);
}

// RTTM / RTT tracking

#[test]
fn rtt_initialized_to_zero() {
    let entry = make_local_entry(TEST_TERM_LENGTH);
    assert_eq!(entry.last_rtt_ns(), 0);
    assert_eq!(entry.time_of_last_rttm_ns(), 0);
}

#[test]
fn update_rtt_first_sample_sets_directly() {
    let mut entry = make_local_entry(TEST_TERM_LENGTH);
    entry.update_rtt(10_000);
    assert_eq!(entry.last_rtt_ns(), 10_000);
}

#[test]
fn update_rtt_subsequent_uses_ewma() {
    let mut entry = make_local_entry(TEST_TERM_LENGTH);
    // First sample.
    entry.update_rtt(8000);
    assert_eq!(entry.last_rtt_ns(), 8000);

    // Second sample with higher value.
    // srtt = 8000 - (8000 >> 3) + (16000 >> 3) = 8000 - 1000 + 2000 = 9000.
    entry.update_rtt(16000);
    assert_eq!(entry.last_rtt_ns(), 9000);
}

#[test]
fn update_rtt_rejects_negative_sample() {
    let mut entry = make_local_entry(TEST_TERM_LENGTH);
    entry.update_rtt(10_000);
    // Negative sample should be rejected.
    entry.update_rtt(-5000);
    assert_eq!(entry.last_rtt_ns(), 10_000);
}

#[test]
fn update_rtt_rejects_zero_sample() {
    let mut entry = make_local_entry(TEST_TERM_LENGTH);
    entry.update_rtt(10_000);
    entry.update_rtt(0);
    assert_eq!(entry.last_rtt_ns(), 10_000);
}

#[test]
fn update_rtt_rejects_huge_sample() {
    let mut entry = make_local_entry(TEST_TERM_LENGTH);
    entry.update_rtt(10_000);
    // Sample beyond half-range should be rejected.
    entry.update_rtt(i64::MAX);
    assert_eq!(entry.last_rtt_ns(), 10_000);
}

#[test]
fn time_of_last_rttm_ns_accessors() {
    let mut entry = make_local_entry(TEST_TERM_LENGTH);
    assert_eq!(entry.time_of_last_rttm_ns(), 0);
    entry.set_time_of_last_rttm_ns(999_999);
    assert_eq!(entry.time_of_last_rttm_ns(), 999_999);
}

// the agent

fn make_agent(publications: usize) -> SenderAgent {
    let mut agent = SenderAgent::new(&DriverContext::default()).expect("valid context");
    let endpoint = agent.add_endpoint();
    for i in 0..publications {
        let added = agent.add_publication(true, endpoint, i as i32, 7, 0, 1024, TEST_MTU);
        assert_eq!(added, Some(i));
    }
    agent
}

fn idle_state() -> PublicationState {
    PublicationState { active_term_id: 0, term_offset: 0, sender_position: 0, pub_position: 0 }
}

#[test]
fn publication_needs_its_log() {
    let mut agent = make_agent(1);
    assert_eq!(agent.add_publication(false, 0, 9, 9, 0, 1024, TEST_MTU), None);
    assert_eq!(agent.publications.len(), 1);
}

#[test]
fn status_message_ends_setup_and_moves_limit() {
    let mut agent = make_agent(2);
    assert_eq!(agent.publication_needs_setup(1), Some(true));
    agent.on_status_message(1, 7, 0, 512, 2048);
    assert_eq!(agent.publication_needs_setup(0), Some(true));
    assert_eq!(agent.publication_needs_setup(1), Some(false));
    assert_eq!(agent.publication_sender_limit(0), Some(1024));
    assert_eq!(agent.publication_sender_limit(1), Some(2560));
    assert_eq!(agent.publication_sender_limit(2), None);
}

#[test]
fn rtt_sample_is_time_since_request_without_delay() {
    let mut agent = make_agent(1);
    agent.on_rttm_reply(50_000, 0, 7, 40_000, 2_000);
    assert_eq!(agent.publication_last_rtt_ns(0), Some(8_000));
    agent.on_rttm_reply(50_000, 5, 5, 40_000, 2_000);
    assert_eq!(agent.publication_last_rtt_ns(0), Some(8_000));
}

#[test]
fn setup_is_due_until_it_is_answered() {
    let mut agent = make_agent(1);
    let plan = agent.plan_control(0, 1_000_000_000, idle_state());
    assert!(plan.setup.is_some());
    let again = agent.plan_control(0, 1_000_000_001, idle_state());
    assert!(again.setup.is_none());
    agent.on_status_message(0, 7, 0, 0, 2048);
    let answered = agent.plan_control(0, 2_000_000_000, idle_state());
    assert!(answered.setup.is_none());
    assert!(answered.heartbeat.is_some());
}

#[test]
fn rounds_begin_at_one_publication_after_the_other() {
    let mut agent = make_agent(3);
    let starts: Vec<usize> =
        (0..6).map(|_| agent.begin_send().expect("publications").start).collect();
    assert_eq!(starts[0..3], starts[3..6]);
    let mut once = starts[0..3].to_vec();
    once.sort();
    assert_eq!(once, vec![0, 1, 2]);
    assert!(make_agent(0).begin_send().is_none());
}

#[test]
fn control_is_polled_when_nothing_was_sent_or_now_and_then() {
    let mut agent = make_agent(0);
    assert!(agent.poll_control_due(0));
    let due: Vec<bool> = (0..10).map(|_| agent.poll_control_due(100)).collect();
    assert_eq!(due, vec![false, false, false, false, true, false, false, false, false, true]);
}

#[test]
fn padding_is_not_transmitted() {
    let mut frame = [0u8; 32];
    assert!(!is_transmitted(&frame));
    frame[6] = 1;
    assert!(is_transmitted(&frame));
    assert!(is_transmitted(&frame[..4]));
}

#[test]
fn publications_are_found_by_session_and_stream() {
    let agent = make_agent(3);
    assert_eq!(agent.find_publication(2, 7), Some(2));
    assert_eq!(agent.find_publication(2, 8), None);
}
