use aeron_rs::agent::idle_strategy::IdleStrategy;
use aeron_rs::context::{ContextValidationError, DriverContext, MAX_RECV_BUFFER};
use std::time::Duration;

#[test]
fn default_socket_buffers() {
    let ctx = DriverContext::default();
    assert_eq!(ctx.socket_rcvbuf, 2 * 1024 * 1024);
    assert_eq!(ctx.socket_sndbuf, 2 * 1024 * 1024);
}

#[test]
fn default_mtu() {
    let ctx = DriverContext::default();
    assert_eq!(ctx.mtu_length, 1408);
}

#[test]
fn default_uring_params() {
    let ctx = DriverContext::default();
    assert_eq!(ctx.uring_ring_size, 512);
    assert_eq!(ctx.uring_recv_slots_per_transport, 16);
    assert_eq!(ctx.uring_send_slots, 128);
    assert_eq!(ctx.uring_buf_ring_entries, 256);
    assert!(!ctx.uring_sqpoll);
    assert_eq!(ctx.uring_sqpoll_idle_ms, 1000);
}

#[test]
fn default_sender_params() {
    let ctx = DriverContext::default();
    assert_eq!(ctx.send_duty_cycle_ratio, 4);
    assert_eq!(
        ctx.heartbeat_interval_ns,
        Duration::from_millis(100).as_nanos() as i64
    );
    assert_eq!(ctx.term_buffer_length, 64 * 1024);
    assert_eq!(ctx.retransmit_unicast_delay_ns, 0);
    assert_eq!(
        ctx.retransmit_unicast_linger_ns,
        Duration::from_millis(60).as_nanos() as i64,
    );
}

#[test]
fn default_receiver_params() {
    let ctx = DriverContext::default();
    assert_eq!(
        ctx.sm_interval_ns,
        Duration::from_millis(200).as_nanos() as i64
    );
    assert_eq!(
        ctx.nak_delay_ns,
        Duration::from_millis(60).as_nanos() as i64
    );
    assert_eq!(
        ctx.rttm_interval_ns,
        Duration::from_secs(1).as_nanos() as i64
    );
    assert_eq!(ctx.max_receiver_images, 256);
}

#[test]
fn default_general_params() {
    let ctx = DriverContext::default();
    assert_eq!(
        ctx.driver_timeout_ns,
        Duration::from_secs(10).as_nanos() as i64
    );
    assert_eq!(
        ctx.timer_interval_ns,
        Duration::from_millis(1).as_nanos() as i64
    );
}

// Validation tests

#[test]
fn default_context_validates() {
    let ctx = DriverContext::default();
    assert!(ctx.validate().is_ok());
}

#[test]
fn validate_ring_size_not_power_of_two() {
    let mut ctx = DriverContext::default();
    ctx.uring_ring_size = 100;
    assert_eq!(
        ctx.validate(),
        Err(ContextValidationError::RingSizeNotPowerOfTwo)
    );
}

#[test]
fn validate_ring_size_zero() {
    let mut ctx = DriverContext::default();
    ctx.uring_ring_size = 0;
    assert_eq!(
        ctx.validate(),
        Err(ContextValidationError::RingSizeNotPowerOfTwo)
    );
}

#[test]
fn validate_buf_ring_entries_not_power_of_two() {
    let mut ctx = DriverContext::default();
    ctx.uring_buf_ring_entries = 100;
    assert_eq!(
        ctx.validate(),
        Err(ContextValidationError::BufRingEntriesNotPowerOfTwo)
    );
}

#[test]
fn validate_buf_ring_entries_zero() {
    let mut ctx = DriverContext::default();
    ctx.uring_buf_ring_entries = 0;
    assert_eq!(
        ctx.validate(),
        Err(ContextValidationError::BufRingEntriesZero)
    );
}

#[test]
fn validate_buf_ring_entries_too_large() {
    let mut ctx = DriverContext::default();
    ctx.uring_buf_ring_entries = 65535; // not power-of-two
    assert!(ctx.validate().is_err());
    // 32768 is the max valid value (power-of-two, <= 32768).
    ctx.uring_buf_ring_entries = 32768;
    assert!(ctx.validate().is_ok());
}

#[test]
fn validate_send_slots_zero() {
    let mut ctx = DriverContext::default();
    ctx.uring_send_slots = 0;
    assert_eq!(ctx.validate(), Err(ContextValidationError::SendSlotsZero));
}

#[test]
fn validate_mtu_too_small() {
    let mut ctx = DriverContext::default();
    ctx.mtu_length = 32;
    assert_eq!(ctx.validate(), Err(ContextValidationError::MtuOutOfRange));
}

#[test]
fn validate_mtu_too_large() {
    let mut ctx = DriverContext::default();
    ctx.mtu_length = MAX_RECV_BUFFER + 1;
    assert_eq!(ctx.validate(), Err(ContextValidationError::MtuOutOfRange));
}

#[test]
fn validate_heartbeat_interval_zero() {
    let mut ctx = DriverContext::default();
    ctx.heartbeat_interval_ns = 0;
    assert_eq!(
        ctx.validate(),
        Err(ContextValidationError::HeartbeatIntervalZero)
    );
}

#[test]
fn validate_sm_interval_zero_is_ok() {
    let mut ctx = DriverContext::default();
    ctx.sm_interval_ns = 0;
    assert!(ctx.validate().is_ok());
}

#[test]
fn validate_sm_interval_negative() {
    let mut ctx = DriverContext::default();
    ctx.sm_interval_ns = -1;
    assert_eq!(
        ctx.validate(),
        Err(ContextValidationError::SmIntervalNegative)
    );
}

#[test]
fn validate_nak_delay_zero() {
    let mut ctx = DriverContext::default();
    ctx.nak_delay_ns = 0;
    assert_eq!(ctx.validate(), Err(ContextValidationError::NakDelayZero));
}

#[test]
fn validate_timer_interval_zero() {
    let mut ctx = DriverContext::default();
    ctx.timer_interval_ns = 0;
    assert_eq!(
        ctx.validate(),
        Err(ContextValidationError::TimerIntervalZero)
    );
}

#[test]
fn validate_socket_rcvbuf_zero() {
    let mut ctx = DriverContext::default();
    ctx.socket_rcvbuf = 0;
    assert_eq!(
        ctx.validate(),
        Err(ContextValidationError::SocketRcvbufZero)
    );
}

#[test]
fn validate_socket_sndbuf_zero() {
    let mut ctx = DriverContext::default();
    ctx.socket_sndbuf = 0;
    assert_eq!(
        ctx.validate(),
        Err(ContextValidationError::SocketSndbufZero)
    );
}

#[test]
fn validate_term_buffer_length_zero() {
    let mut ctx = DriverContext::default();
    ctx.term_buffer_length = 0;
    assert_eq!(
        ctx.validate(),
        Err(ContextValidationError::TermBufferLengthInvalid)
    );
}

#[test]
fn validate_term_buffer_length_not_power_of_two() {
    let mut ctx = DriverContext::default();
    ctx.term_buffer_length = 100;
    assert_eq!(
        ctx.validate(),
        Err(ContextValidationError::TermBufferLengthInvalid)
    );
}

#[test]
fn validate_term_buffer_length_too_small() {
    let mut ctx = DriverContext::default();
    // 16 < 32 (FRAME_ALIGNMENT)
    ctx.term_buffer_length = 16;
    assert_eq!(
        ctx.validate(),
        Err(ContextValidationError::TermBufferLengthInvalid)
    );
}

#[test]
fn validate_term_buffer_length_min_valid() {
    let mut ctx = DriverContext::default();
    ctx.term_buffer_length = 32; // exactly FRAME_ALIGNMENT, power-of-two
    assert!(ctx.validate().is_ok());
}

#[test]
fn validate_term_buffer_length_large_valid() {
    let mut ctx = DriverContext::default();
    ctx.term_buffer_length = 16 * 1024 * 1024; // 16 MiB
    assert!(ctx.validate().is_ok());
}

#[test]
fn validate_retransmit_linger_zero() {
    let mut ctx = DriverContext::default();
    ctx.retransmit_unicast_linger_ns = 0;
    assert_eq!(
        ctx.validate(),
        Err(ContextValidationError::RetransmitLingerZero),
    );
}

#[test]
fn validate_retransmit_linger_negative() {
    let mut ctx = DriverContext::default();
    ctx.retransmit_unicast_linger_ns = -1;
    assert_eq!(
        ctx.validate(),
        Err(ContextValidationError::RetransmitLingerZero),
    );
}

#[test]
fn validate_rttm_interval_zero() {
    let mut ctx = DriverContext::default();
    ctx.rttm_interval_ns = 0;
    assert_eq!(
        ctx.validate(),
        Err(ContextValidationError::RttmIntervalZero)
    );
}

#[test]
fn validate_rttm_interval_negative() {
    let mut ctx = DriverContext::default();
    ctx.rttm_interval_ns = -1;
    assert_eq!(
        ctx.validate(),
        Err(ContextValidationError::RttmIntervalZero)
    );
}

#[test]
fn validate_max_receiver_images_zero() {
    let mut ctx = DriverContext::default();
    ctx.max_receiver_images = 0;
    assert_eq!(
        ctx.validate(),
        Err(ContextValidationError::MaxReceiverImagesInvalid),
    );
}

#[test]
fn validate_max_receiver_images_too_large() {
    let mut ctx = DriverContext::default();
    ctx.max_receiver_images = 257;
    assert_eq!(
        ctx.validate(),
        Err(ContextValidationError::MaxReceiverImagesInvalid),
    );
}

#[test]
fn validate_max_receiver_images_boundary() {
    let mut ctx = DriverContext::default();
    ctx.max_receiver_images = 1;
    assert!(ctx.validate().is_ok());
    ctx.max_receiver_images = 256;
    assert!(ctx.validate().is_ok());
}

#[test]
fn validation_error_display() {
    let e = ContextValidationError::RingSizeNotPowerOfTwo;
    let s = e.to_string();
    assert!(s.contains("power-of-two"));
}

// Idle strategy validation

#[test]
fn default_idle_strategy_params() {
    let ctx = DriverContext::default();
    assert_eq!(ctx.idle_strategy_max_spins, 10);
    assert_eq!(ctx.idle_strategy_max_yields, 5);
    assert_eq!(ctx.idle_strategy_min_park_ns, 1_000);
    assert_eq!(ctx.idle_strategy_max_park_ns, 1_000_000);
}

#[test]
fn validate_idle_min_park_zero() {
    let mut ctx = DriverContext::default();
    ctx.idle_strategy_min_park_ns = 0;
    assert_eq!(ctx.validate(), Err(ContextValidationError::IdleMinParkZero));
}

#[test]
fn validate_idle_max_park_less_than_min() {
    let mut ctx = DriverContext::default();
    ctx.idle_strategy_min_park_ns = 1000;
    ctx.idle_strategy_max_park_ns = 500;
    assert_eq!(
        ctx.validate(),
        Err(ContextValidationError::IdleMaxParkLessThanMin)
    );
}

#[test]
fn validate_idle_max_park_equal_to_min_ok() {
    let mut ctx = DriverContext::default();
    ctx.idle_strategy_min_park_ns = 1000;
    ctx.idle_strategy_max_park_ns = 1000;
    assert!(ctx.validate().is_ok());
}

#[test]
fn idle_strategy_from_context() {
    let ctx = DriverContext::default();
    let strategy = ctx.idle_strategy();
    match strategy {
        IdleStrategy::Backoff {
            max_spins,
            max_yields,
            min_park_ns,
            max_park_ns,
        } => {
            assert_eq!(max_spins, 10);
            assert_eq!(max_yields, 5);
            assert_eq!(min_park_ns, 1_000);
            assert_eq!(max_park_ns, 1_000_000);
        }
        _ => panic!("expected Backoff variant"),
    }
}

#[test]
fn every_refusal_has_its_text() {
    let e = ContextValidationError::MtuOutOfRange;
    assert_eq!(e.to_string(), "mtu_length must be in [64, 65536]");
    let e = ContextValidationError::IdleMaxParkLessThanMin;
    assert_eq!(e.to_string(), "idle_strategy_max_park_ns must be >= min_park_ns");
}

#[test]
fn first_violation_is_reported() {
    let mut ctx = DriverContext::default();
    ctx.idle_strategy_min_park_ns = 0;
    ctx.mtu_length = 0;
    ctx.uring_ring_size = 3;
    assert_eq!(ctx.validate(), Err(ContextValidationError::RingSizeNotPowerOfTwo));
    ctx.uring_ring_size = 4;
    assert_eq!(ctx.validate(), Err(ContextValidationError::MtuOutOfRange));
    ctx.mtu_length = 64;
    assert_eq!(ctx.validate(), Err(ContextValidationError::IdleMinParkZero));
}
