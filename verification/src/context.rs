//! Driver configuration.

use crate::agent::idle_strategy::IdleStrategy;
use vstd::arithmetic::power2;
use vstd::prelude::*;

verus! {

/// Largest datagram that a receive buffer holds.
pub const MAX_RECV_BUFFER: usize = 65536;

/// Why a configuration is refused.
#[derive(Debug, Clone, Copy, PartialEq, Eq, Structural)]
pub enum ContextValidationError {
    /// `uring_ring_size` must be a power of two.
    RingSizeNotPowerOfTwo,
    /// `uring_buf_ring_entries` must be a power of two.
    BufRingEntriesNotPowerOfTwo,
    /// `uring_buf_ring_entries` must be <= 32768.
    BufRingEntriesTooLarge,
    /// `uring_buf_ring_entries` must be > 0.
    BufRingEntriesZero,
    /// `uring_send_slots` must be > 0.
    SendSlotsZero,
    /// `mtu_length` must be in [64, MAX_RECV_BUFFER].
    MtuOutOfRange,
    /// `heartbeat_interval_ns` must be > 0.
    HeartbeatIntervalZero,
    /// `sm_interval_ns` must be >= 0.
    SmIntervalNegative,
    /// `nak_delay_ns` must be > 0.
    NakDelayZero,
    /// `timer_interval_ns` must be > 0.
    TimerIntervalZero,
    /// `socket_rcvbuf` must be > 0.
    SocketRcvbufZero,
    /// `socket_sndbuf` must be > 0.
    SocketSndbufZero,
    /// `term_buffer_length` must be a power of two >= 32.
    TermBufferLengthInvalid,
    /// `retransmit_unicast_linger_ns` must be > 0.
    RetransmitLingerZero,
    /// `rttm_interval_ns` must be > 0.
    RttmIntervalZero,
    /// `max_receiver_images` must be in [1, 256].
    MaxReceiverImagesInvalid,
    /// `idle_strategy_min_park_ns` must be > 0.
    IdleMinParkZero,
    /// `idle_strategy_max_park_ns` must be >= `idle_strategy_min_park_ns`.
    IdleMaxParkLessThanMin,
}

impl ContextValidationError {
    /// Text of the error.
    pub open spec fn text(self) -> Seq<char> {
        match self {
            ContextValidationError::RingSizeNotPowerOfTwo => {
                "uring_ring_size must be power-of-two"@
            },
            ContextValidationError::BufRingEntriesNotPowerOfTwo => {
                "uring_buf_ring_entries must be power-of-two"@
            },
            ContextValidationError::BufRingEntriesTooLarge => {
                "uring_buf_ring_entries must be <= 32768"@
            },
            ContextValidationError::BufRingEntriesZero => "uring_buf_ring_entries must be > 0"@,
            ContextValidationError::SendSlotsZero => "uring_send_slots must be > 0"@,
            ContextValidationError::MtuOutOfRange => "mtu_length must be in [64, 65536]"@,
            ContextValidationError::HeartbeatIntervalZero => "heartbeat_interval_ns must be > 0"@,
            ContextValidationError::SmIntervalNegative => "sm_interval_ns must be >= 0"@,
            ContextValidationError::NakDelayZero => "nak_delay_ns must be > 0"@,
            ContextValidationError::TimerIntervalZero => "timer_interval_ns must be > 0"@,
            ContextValidationError::SocketRcvbufZero => "socket_rcvbuf must be > 0"@,
            ContextValidationError::SocketSndbufZero => "socket_sndbuf must be > 0"@,
            ContextValidationError::TermBufferLengthInvalid => {
                "term_buffer_length must be power-of-two >= 32"@
            },
            ContextValidationError::RetransmitLingerZero => {
                "retransmit_unicast_linger_ns must be > 0"@
            },
            ContextValidationError::RttmIntervalZero => "rttm_interval_ns must be > 0"@,
            ContextValidationError::MaxReceiverImagesInvalid => {
                "max_receiver_images must be in [1, 256]"@
            },
            ContextValidationError::IdleMinParkZero => "idle_strategy_min_park_ns must be > 0"@,
            ContextValidationError::IdleMaxParkLessThanMin => {
                "idle_strategy_max_park_ns must be >= min_park_ns"@
            },
        }
    }

    /// Text of the error.
    pub fn to_string(&self) -> (r: String)
        ensures
            r@ == self.text(),
    {
        let text = match self {
            ContextValidationError::RingSizeNotPowerOfTwo => "uring_ring_size must be power-of-two",
            ContextValidationError::BufRingEntriesNotPowerOfTwo => {
                "uring_buf_ring_entries must be power-of-two"
            },
            ContextValidationError::BufRingEntriesTooLarge => {
                "uring_buf_ring_entries must be <= 32768"
            },
            ContextValidationError::BufRingEntriesZero => "uring_buf_ring_entries must be > 0",
            ContextValidationError::SendSlotsZero => "uring_send_slots must be > 0",
            ContextValidationError::MtuOutOfRange => "mtu_length must be in [64, 65536]",
            ContextValidationError::HeartbeatIntervalZero => "heartbeat_interval_ns must be > 0",
            ContextValidationError::SmIntervalNegative => "sm_interval_ns must be >= 0",
            ContextValidationError::NakDelayZero => "nak_delay_ns must be > 0",
            ContextValidationError::TimerIntervalZero => "timer_interval_ns must be > 0",
            ContextValidationError::SocketRcvbufZero => "socket_rcvbuf must be > 0",
            ContextValidationError::SocketSndbufZero => "socket_sndbuf must be > 0",
            ContextValidationError::TermBufferLengthInvalid => {
                "term_buffer_length must be power-of-two >= 32"
            },
            ContextValidationError::RetransmitLingerZero => {
                "retransmit_unicast_linger_ns must be > 0"
            },
            ContextValidationError::RttmIntervalZero => "rttm_interval_ns must be > 0",
            ContextValidationError::MaxReceiverImagesInvalid => {
                "max_receiver_images must be in [1, 256]"
            },
            ContextValidationError::IdleMinParkZero => "idle_strategy_min_park_ns must be > 0",
            ContextValidationError::IdleMaxParkLessThanMin => {
                "idle_strategy_max_park_ns must be >= min_park_ns"
            },
        };
        text.to_owned()
    }
}

/// Driver-level configuration.
#[derive(Debug, Clone, Copy, PartialEq, Eq, Structural)]
pub struct DriverContext {
    pub socket_rcvbuf: usize,
    pub socket_sndbuf: usize,
    pub mtu_length: usize,
    pub multicast_ttl: u8,
    pub uring_ring_size: u32,
    pub uring_recv_slots_per_transport: usize,
    pub uring_send_slots: usize,
    /// Entries of the provided buffer ring: a power of two, at most 32768.
    pub uring_buf_ring_entries: u16,
    pub uring_sqpoll: bool,
    pub uring_sqpoll_idle_ms: u32,
    pub send_duty_cycle_ratio: usize,
    pub retransmit_unicast_delay_ns: i64,
    pub retransmit_unicast_linger_ns: i64,
    pub heartbeat_interval_ns: i64,
    /// Bytes of a term partition: a power of two, at least 32.
    pub term_buffer_length: u32,
    pub sm_interval_ns: i64,
    pub nak_delay_ns: i64,
    pub rttm_interval_ns: i64,
    /// Images that a receiver tracks at most, from 1 to 256.
    pub max_receiver_images: usize,
    /// Receiver window to advertise, where it is not half a term.
    pub receiver_window: Option<i32>,
    /// Whether a status message follows data at once.
    pub send_sm_on_data: bool,
    pub driver_timeout_ns: i64,
    pub timer_interval_ns: i64,
    pub idle_strategy_max_spins: u64,
    pub idle_strategy_max_yields: u64,
    pub idle_strategy_min_park_ns: u64,
    /// At least `idle_strategy_min_park_ns`.
    pub idle_strategy_max_park_ns: u64,
}

impl DriverContext {
    /// The configuration that a driver has unless told otherwise.
    pub open spec fn standard() -> DriverContext {
        DriverContext {
            socket_rcvbuf: 2_097_152,
            socket_sndbuf: 2_097_152,
            mtu_length: 1408,
            multicast_ttl: 0,
            uring_ring_size: 512,
            uring_recv_slots_per_transport: 16,
            uring_send_slots: 128,
            uring_buf_ring_entries: 256,
            uring_sqpoll: false,
            uring_sqpoll_idle_ms: 1000,
            send_duty_cycle_ratio: 4,
            retransmit_unicast_delay_ns: 0,
            retransmit_unicast_linger_ns: 60_000_000,
            heartbeat_interval_ns: 100_000_000,
            term_buffer_length: 65_536,
            sm_interval_ns: 200_000_000,
            nak_delay_ns: 60_000_000,
            rttm_interval_ns: 1_000_000_000,
            max_receiver_images: 256,
            receiver_window: None,
            send_sm_on_data: false,
            driver_timeout_ns: 10_000_000_000,
            timer_interval_ns: 1_000_000,
            idle_strategy_max_spins: 10,
            idle_strategy_max_yields: 5,
            idle_strategy_min_park_ns: 1_000,
            idle_strategy_max_park_ns: 1_000_000,
        }
    }

    /// Whether the configuration violates a constraint.
    pub open spec fn violates(self, e: ContextValidationError) -> bool {
        match e {
            ContextValidationError::RingSizeNotPowerOfTwo => {
                !power2::is_pow2(self.uring_ring_size as int)
            },
            ContextValidationError::BufRingEntriesZero => self.uring_buf_ring_entries == 0,
            ContextValidationError::BufRingEntriesNotPowerOfTwo => {
                !power2::is_pow2(self.uring_buf_ring_entries as int)
            },
            ContextValidationError::BufRingEntriesTooLarge => self.uring_buf_ring_entries > 32768,
            ContextValidationError::SendSlotsZero => self.uring_send_slots == 0,
            ContextValidationError::MtuOutOfRange => {
                !(64 <= self.mtu_length <= MAX_RECV_BUFFER)
            },
            ContextValidationError::HeartbeatIntervalZero => self.heartbeat_interval_ns <= 0,
            ContextValidationError::SmIntervalNegative => self.sm_interval_ns < 0,
            ContextValidationError::NakDelayZero => self.nak_delay_ns <= 0,
            ContextValidationError::TimerIntervalZero => self.timer_interval_ns <= 0,
            ContextValidationError::SocketRcvbufZero => self.socket_rcvbuf == 0,
            ContextValidationError::SocketSndbufZero => self.socket_sndbuf == 0,
            ContextValidationError::TermBufferLengthInvalid => {
                self.term_buffer_length < 32 || !power2::is_pow2(self.term_buffer_length as int)
            },
            ContextValidationError::RetransmitLingerZero => self.retransmit_unicast_linger_ns <= 0,
            ContextValidationError::RttmIntervalZero => self.rttm_interval_ns <= 0,
            ContextValidationError::MaxReceiverImagesInvalid => {
                !(1 <= self.max_receiver_images <= 256)
            },
            ContextValidationError::IdleMinParkZero => self.idle_strategy_min_park_ns == 0,
            ContextValidationError::IdleMaxParkLessThanMin => {
                self.idle_strategy_max_park_ns < self.idle_strategy_min_park_ns
            },
        }
    }

    /// Place of a constraint in the order in which they are checked.
    pub open spec fn rank(e: ContextValidationError) -> int {
        match e {
            ContextValidationError::RingSizeNotPowerOfTwo => 0,
            ContextValidationError::BufRingEntriesZero => 1,
            ContextValidationError::BufRingEntriesNotPowerOfTwo => 2,
            ContextValidationError::BufRingEntriesTooLarge => 3,
            ContextValidationError::SendSlotsZero => 4,
            ContextValidationError::MtuOutOfRange => 5,
            ContextValidationError::HeartbeatIntervalZero => 6,
            ContextValidationError::SmIntervalNegative => 7,
            ContextValidationError::NakDelayZero => 8,
            ContextValidationError::TimerIntervalZero => 9,
            ContextValidationError::SocketRcvbufZero => 10,
            ContextValidationError::SocketSndbufZero => 11,
            ContextValidationError::TermBufferLengthInvalid => 12,
            ContextValidationError::RetransmitLingerZero => 13,
            ContextValidationError::RttmIntervalZero => 14,
            ContextValidationError::MaxReceiverImagesInvalid => 15,
            ContextValidationError::IdleMinParkZero => 16,
            ContextValidationError::IdleMaxParkLessThanMin => 17,
        }
    }

    /// The configuration violates no constraint.
    pub open spec fn valid(self) -> bool {
        forall|e: ContextValidationError| !#[trigger] self.violates(e)
    }

    /// The context violates a constraint and none that is checked before it.
    pub open spec fn violates_first(self, e: ContextValidationError) -> bool {
        &&& self.violates(e)
        &&& forall|other: ContextValidationError|
            Self::rank(other) < Self::rank(e) ==> !#[trigger] self.violates(other)
    }

    /// Checks every constraint. The error is the first one violated, in the order
    /// of checking.
    pub fn validate(&self) -> (r: Result<(), ContextValidationError>)
        ensures
            r is Ok <==> self.valid(),
            match r {
                Ok(_) => true,
                Err(e) => {
                    &&& self.violates(e)
                    &&& forall|other: ContextValidationError|
                        Self::rank(other) < Self::rank(e) ==> !#[trigger] self.violates(other)
                },
            },
            r matches Err(e) ==> self.violates_first(e),
    {
        proof {
            lemma_zero_is_no_power_of_two();
        }
        if self.uring_ring_size == 0 || !self.uring_ring_size.is_power_of_two() {
            assert(self.violates(ContextValidationError::RingSizeNotPowerOfTwo));
            return Err(ContextValidationError::RingSizeNotPowerOfTwo);
        }
        if self.uring_buf_ring_entries == 0 {
            assert(self.violates(ContextValidationError::BufRingEntriesZero));
            return Err(ContextValidationError::BufRingEntriesZero);
        }
        if !self.uring_buf_ring_entries.is_power_of_two() {
            assert(self.violates(ContextValidationError::BufRingEntriesNotPowerOfTwo));
            return Err(ContextValidationError::BufRingEntriesNotPowerOfTwo);
        }
        if self.uring_buf_ring_entries > 32768 {
            assert(self.violates(ContextValidationError::BufRingEntriesTooLarge));
            return Err(ContextValidationError::BufRingEntriesTooLarge);
        }
        if self.uring_send_slots == 0 {
            assert(self.violates(ContextValidationError::SendSlotsZero));
            return Err(ContextValidationError::SendSlotsZero);
        }
        if self.mtu_length < 64 || self.mtu_length > MAX_RECV_BUFFER {
            assert(self.violates(ContextValidationError::MtuOutOfRange));
            return Err(ContextValidationError::MtuOutOfRange);
        }
        if self.heartbeat_interval_ns <= 0 {
            assert(self.violates(ContextValidationError::HeartbeatIntervalZero));
            return Err(ContextValidationError::HeartbeatIntervalZero);
        }
        if self.sm_interval_ns < 0 {
            assert(self.violates(ContextValidationError::SmIntervalNegative));
            return Err(ContextValidationError::SmIntervalNegative);
        }
        if self.nak_delay_ns <= 0 {
            assert(self.violates(ContextValidationError::NakDelayZero));
            return Err(ContextValidationError::NakDelayZero);
        }
        if self.timer_interval_ns <= 0 {
            assert(self.violates(ContextValidationError::TimerIntervalZero));
            return Err(ContextValidationError::TimerIntervalZero);
        }
        if self.socket_rcvbuf == 0 {
            assert(self.violates(ContextValidationError::SocketRcvbufZero));
            return Err(ContextValidationError::SocketRcvbufZero);
        }
        if self.socket_sndbuf == 0 {
            assert(self.violates(ContextValidationError::SocketSndbufZero));
            return Err(ContextValidationError::SocketSndbufZero);
        }
        if self.term_buffer_length < 32 || !self.term_buffer_length.is_power_of_two() {
            assert(self.violates(ContextValidationError::TermBufferLengthInvalid));
            return Err(ContextValidationError::TermBufferLengthInvalid);
        }
        if self.retransmit_unicast_linger_ns <= 0 {
            assert(self.violates(ContextValidationError::RetransmitLingerZero));
            return Err(ContextValidationError::RetransmitLingerZero);
        }
        if self.rttm_interval_ns <= 0 {
            assert(self.violates(ContextValidationError::RttmIntervalZero));
            return Err(ContextValidationError::RttmIntervalZero);
        }
        if self.max_receiver_images == 0 || self.max_receiver_images > 256 {
            assert(self.violates(ContextValidationError::MaxReceiverImagesInvalid));
            return Err(ContextValidationError::MaxReceiverImagesInvalid);
        }
        if self.idle_strategy_min_park_ns == 0 {
            assert(self.violates(ContextValidationError::IdleMinParkZero));
            return Err(ContextValidationError::IdleMinParkZero);
        }
        if self.idle_strategy_max_park_ns < self.idle_strategy_min_park_ns {
            assert(self.violates(ContextValidationError::IdleMaxParkLessThanMin));
            return Err(ContextValidationError::IdleMaxParkLessThanMin);
        }
        Ok(())
    }

    /// The backoff strategy with the configured parameters.
    pub fn idle_strategy(&self) -> (r: IdleStrategy)
        ensures
            r == (IdleStrategy::Backoff {
                max_spins: self.idle_strategy_max_spins,
                max_yields: self.idle_strategy_max_yields,
                min_park_ns: self.idle_strategy_min_park_ns,
                max_park_ns: self.idle_strategy_max_park_ns,
            }),
    {
        IdleStrategy::Backoff {
            max_spins: self.idle_strategy_max_spins,
            max_yields: self.idle_strategy_max_yields,
            min_park_ns: self.idle_strategy_min_park_ns,
            max_park_ns: self.idle_strategy_max_park_ns,
        }
    }
}

impl Default for DriverContext {
    fn default() -> (r: Self)
        ensures
            r == DriverContext::standard(),
    {
        DriverContext {
            socket_rcvbuf: 2_097_152,
            socket_sndbuf: 2_097_152,
            mtu_length: 1408,
            multicast_ttl: 0,
            uring_ring_size: 512,
            uring_recv_slots_per_transport: 16,
            uring_send_slots: 128,
            uring_buf_ring_entries: 256,
            uring_sqpoll: false,
            uring_sqpoll_idle_ms: 1000,
            send_duty_cycle_ratio: 4,
            retransmit_unicast_delay_ns: 0,
            retransmit_unicast_linger_ns: 60_000_000,
            heartbeat_interval_ns: 100_000_000,
            term_buffer_length: 65_536,
            sm_interval_ns: 200_000_000,
            nak_delay_ns: 60_000_000,
            rttm_interval_ns: 1_000_000_000,
            max_receiver_images: 256,
            receiver_window: None,
            send_sm_on_data: false,
            driver_timeout_ns: 10_000_000_000,
            timer_interval_ns: 1_000_000,
            idle_strategy_max_spins: 10,
            idle_strategy_max_yields: 5,
            idle_strategy_min_park_ns: 1_000,
            idle_strategy_max_park_ns: 1_000_000,
        }
    }
}

proof fn lemma_zero_is_no_power_of_two()
    ensures
        !power2::is_pow2(0),
{
    reveal(power2::is_pow2);
}

/// The standard configuration is valid.
pub proof fn law_standard_context_is_valid()
    ensures
        DriverContext::standard().valid(),
{
    assert(power2::is_pow2(512)) by {
        reveal_with_fuel(power2::is_pow2, 10);
    }
    assert(power2::is_pow2(256)) by {
        reveal_with_fuel(power2::is_pow2, 9);
    }
    assert(power2::is_pow2(65_536)) by {
        reveal_with_fuel(power2::is_pow2, 17);
    }
}

/// What each constraint asks for.
proof fn lemma_violations(ctx: DriverContext)
    ensures
        ctx.violates(ContextValidationError::RingSizeNotPowerOfTwo) <==> !(
        power2::is_pow2(ctx.uring_ring_size as int)),
        ctx.violates(ContextValidationError::BufRingEntriesZero) <==> !(
        ctx.uring_buf_ring_entries > 0),
        ctx.violates(ContextValidationError::BufRingEntriesNotPowerOfTwo) <==> !(
        power2::is_pow2(ctx.uring_buf_ring_entries as int)),
        ctx.violates(ContextValidationError::BufRingEntriesTooLarge) <==> !(
        ctx.uring_buf_ring_entries <= 32768),
        ctx.violates(ContextValidationError::SendSlotsZero) <==> !(ctx.uring_send_slots > 0),
        ctx.violates(ContextValidationError::MtuOutOfRange) <==> !(64 <= ctx.mtu_length <= 65536),
        ctx.violates(ContextValidationError::HeartbeatIntervalZero) <==> !(
        ctx.heartbeat_interval_ns > 0),
        ctx.violates(ContextValidationError::SmIntervalNegative) <==> !(ctx.sm_interval_ns >= 0),
        ctx.violates(ContextValidationError::NakDelayZero) <==> !(ctx.nak_delay_ns > 0),
        ctx.violates(ContextValidationError::TimerIntervalZero) <==> !(ctx.timer_interval_ns > 0),
        ctx.violates(ContextValidationError::SocketRcvbufZero) <==> !(ctx.socket_rcvbuf > 0),
        ctx.violates(ContextValidationError::SocketSndbufZero) <==> !(ctx.socket_sndbuf > 0),
        ctx.violates(ContextValidationError::TermBufferLengthInvalid) <==> !(
        ctx.term_buffer_length >= 32 && power2::is_pow2(ctx.term_buffer_length as int)),
        ctx.violates(ContextValidationError::RetransmitLingerZero) <==> !(
        ctx.retransmit_unicast_linger_ns > 0),
        ctx.violates(ContextValidationError::RttmIntervalZero) <==> !(ctx.rttm_interval_ns > 0),
        ctx.violates(ContextValidationError::MaxReceiverImagesInvalid) <==> !(
        1 <= ctx.max_receiver_images <= 256),
        ctx.violates(ContextValidationError::IdleMinParkZero) <==> !(
        ctx.idle_strategy_min_park_ns > 0),
        ctx.violates(ContextValidationError::IdleMaxParkLessThanMin) <==> !(
        ctx.idle_strategy_max_park_ns >= ctx.idle_strategy_min_park_ns),
{
}

/// A context is accepted exactly where its ring sizes are powers of two, its sizes,
/// intervals and counts are positive, and those with a range lie in it.
pub proof fn law_context_is_accepted_in_range(
    ctx: &DriverContext,
    r: Result<(), ContextValidationError>,
)
    requires
        call_ensures(DriverContext::validate, (ctx,), r),
    ensures
        r is Ok <==> {
            &&& power2::is_pow2(ctx.uring_ring_size as int)
            &&& ctx.uring_buf_ring_entries > 0
            &&& power2::is_pow2(ctx.uring_buf_ring_entries as int)
            &&& ctx.uring_buf_ring_entries <= 32768
            &&& ctx.uring_send_slots > 0
            &&& 64 <= ctx.mtu_length <= 65536
            &&& ctx.heartbeat_interval_ns > 0
            &&& ctx.sm_interval_ns >= 0
            &&& ctx.nak_delay_ns > 0
            &&& ctx.timer_interval_ns > 0
            &&& ctx.socket_rcvbuf > 0
            &&& ctx.socket_sndbuf > 0
            &&& ctx.term_buffer_length >= 32 && power2::is_pow2(ctx.term_buffer_length as int)
            &&& ctx.retransmit_unicast_linger_ns > 0
            &&& ctx.rttm_interval_ns > 0
            &&& 1 <= ctx.max_receiver_images <= 256
            &&& ctx.idle_strategy_min_park_ns > 0
            &&& ctx.idle_strategy_max_park_ns >= ctx.idle_strategy_min_park_ns
        },
{
    lemma_violations(*ctx);
    if r is Ok {
        assert(ctx.valid());
    } else {
        assert(ctx.violates_first(r->Err_0));
    }
}

/// A context that is refused is refused for the first constraint, in the order
/// below, that it does not meet.
pub proof fn law_context_is_refused_with_its_first_reason(
    ctx: &DriverContext,
    r: Result<(), ContextValidationError>,
)
    requires
        call_ensures(DriverContext::validate, (ctx,), r),
    ensures
        r matches Err(e) ==> {
            let ring = power2::is_pow2(ctx.uring_ring_size as int);
            let entries = ring && ctx.uring_buf_ring_entries > 0;
            let entries_pow2 = entries && power2::is_pow2(ctx.uring_buf_ring_entries as int);
            let entries_max = entries_pow2 && ctx.uring_buf_ring_entries <= 32768;
            let slots = entries_max && ctx.uring_send_slots > 0;
            let mtu = slots && 64 <= ctx.mtu_length <= 65536;
            let heartbeat = mtu && ctx.heartbeat_interval_ns > 0;
            let sm = heartbeat && ctx.sm_interval_ns >= 0;
            let nak = sm && ctx.nak_delay_ns > 0;
            let timer = nak && ctx.timer_interval_ns > 0;
            let rcvbuf = timer && ctx.socket_rcvbuf > 0;
            let sndbuf = rcvbuf && ctx.socket_sndbuf > 0;
            let term = sndbuf && ctx.term_buffer_length >= 32 && power2::is_pow2(
                ctx.term_buffer_length as int,
            );
            let linger = term && ctx.retransmit_unicast_linger_ns > 0;
            let rttm = linger && ctx.rttm_interval_ns > 0;
            let images = rttm && 1 <= ctx.max_receiver_images <= 256;
            let min_park = images && ctx.idle_strategy_min_park_ns > 0;
            match e {
                ContextValidationError::RingSizeNotPowerOfTwo => !ring,
                ContextValidationError::BufRingEntriesZero => {
                    ring && !(ctx.uring_buf_ring_entries > 0)
                },
                ContextValidationError::BufRingEntriesNotPowerOfTwo => {
                    entries && !(power2::is_pow2(ctx.uring_buf_ring_entries as int))
                },
                ContextValidationError::BufRingEntriesTooLarge => {
                    entries_pow2 && !(ctx.uring_buf_ring_entries <= 32768)
                },
                ContextValidationError::SendSlotsZero => entries_max && !(ctx.uring_send_slots > 0),
                ContextValidationError::MtuOutOfRange => slots && !(64 <= ctx.mtu_length <= 65536),
                ContextValidationError::HeartbeatIntervalZero => {
                    mtu && !(ctx.heartbeat_interval_ns > 0)
                },
                ContextValidationError::SmIntervalNegative => {
                    heartbeat && !(ctx.sm_interval_ns >= 0)
                },
                ContextValidationError::NakDelayZero => sm && !(ctx.nak_delay_ns > 0),
                ContextValidationError::TimerIntervalZero => nak && !(ctx.timer_interval_ns > 0),
                ContextValidationError::SocketRcvbufZero => timer && !(ctx.socket_rcvbuf > 0),
                ContextValidationError::SocketSndbufZero => rcvbuf && !(ctx.socket_sndbuf > 0),
                ContextValidationError::TermBufferLengthInvalid => {
                    sndbuf && !(ctx.term_buffer_length >= 32 && power2::is_pow2(ctx.term_buffer_length as int))
                },
                ContextValidationError::RetransmitLingerZero => {
                    term && !(ctx.retransmit_unicast_linger_ns > 0)
                },
                ContextValidationError::RttmIntervalZero => linger && !(ctx.rttm_interval_ns > 0),
                ContextValidationError::MaxReceiverImagesInvalid => {
                    rttm && !(1 <= ctx.max_receiver_images <= 256)
                },
                ContextValidationError::IdleMinParkZero => {
                    images && !(ctx.idle_strategy_min_park_ns > 0)
                },
                ContextValidationError::IdleMaxParkLessThanMin => {
                    min_park && !(ctx.idle_strategy_max_park_ns >= ctx.idle_strategy_min_park_ns)
                },
            }
        },
{
    lemma_zero_is_no_power_of_two();
    lemma_violations(*ctx);
    if let Err(e) = r {
        assert(ctx.violates_first(e));
    }
}

/// What a driver runs with unless told otherwise.
pub proof fn law_default_context(ctx: DriverContext, strategy: IdleStrategy)
    requires
        call_ensures(DriverContext::default, (), ctx),
        call_ensures(DriverContext::idle_strategy, (&ctx,), strategy),
    ensures
        ctx.socket_rcvbuf == 2 * 1024 * 1024,
        ctx.socket_sndbuf == 2 * 1024 * 1024,
        ctx.mtu_length == 1408,
        ctx.multicast_ttl == 0,
        ctx.uring_ring_size == 512,
        ctx.uring_recv_slots_per_transport == 16,
        ctx.uring_send_slots == 128,
        ctx.uring_buf_ring_entries == 256,
        !ctx.uring_sqpoll,
        ctx.uring_sqpoll_idle_ms == 1000,
        ctx.send_duty_cycle_ratio == 4,
        ctx.retransmit_unicast_delay_ns == 0,
        ctx.retransmit_unicast_linger_ns == 60 * 1_000_000,
        ctx.heartbeat_interval_ns == 100 * 1_000_000,
        ctx.term_buffer_length == 64 * 1024,
        ctx.sm_interval_ns == 200 * 1_000_000,
        ctx.nak_delay_ns == 60 * 1_000_000,
        ctx.rttm_interval_ns == 1000 * 1_000_000,
        ctx.max_receiver_images == 256,
        ctx.receiver_window is None,
        !ctx.send_sm_on_data,
        ctx.driver_timeout_ns == 10_000 * 1_000_000,
        ctx.timer_interval_ns == 1_000_000,
        strategy == (IdleStrategy::Backoff {
            max_spins: 10,
            max_yields: 5,
            min_park_ns: 1_000,
            max_park_ns: 1_000_000,
        }),
{
}

/// A driver idles as its context says.
pub proof fn law_context_sets_the_idle_strategy(ctx: &DriverContext, r: IdleStrategy)
    requires
        call_ensures(DriverContext::idle_strategy, (ctx,), r),
    ensures
        r is Backoff,
        r->max_spins == ctx.idle_strategy_max_spins,
        r->max_yields == ctx.idle_strategy_max_yields,
        r->min_park_ns == ctx.idle_strategy_min_park_ns,
        r->max_park_ns == ctx.idle_strategy_max_park_ns,
{
}

/// What each error says.
pub proof fn law_context_error_says_what_is_wrong(e: &ContextValidationError, r: String)
    requires
        call_ensures(ContextValidationError::to_string, (e,), r),
    ensures
        match *e {
            ContextValidationError::RingSizeNotPowerOfTwo => {
                r@ == "uring_ring_size must be power-of-two"@
            },
            ContextValidationError::BufRingEntriesNotPowerOfTwo => {
                r@ == "uring_buf_ring_entries must be power-of-two"@
            },
            ContextValidationError::BufRingEntriesTooLarge => {
                r@ == "uring_buf_ring_entries must be <= 32768"@
            },
            ContextValidationError::BufRingEntriesZero => {
                r@ == "uring_buf_ring_entries must be > 0"@
            },
            ContextValidationError::SendSlotsZero => r@ == "uring_send_slots must be > 0"@,
            ContextValidationError::MtuOutOfRange => r@ == "mtu_length must be in [64, 65536]"@,
            ContextValidationError::HeartbeatIntervalZero => {
                r@ == "heartbeat_interval_ns must be > 0"@
            },
            ContextValidationError::SmIntervalNegative => r@ == "sm_interval_ns must be >= 0"@,
            ContextValidationError::NakDelayZero => r@ == "nak_delay_ns must be > 0"@,
            ContextValidationError::TimerIntervalZero => r@ == "timer_interval_ns must be > 0"@,
            ContextValidationError::SocketRcvbufZero => r@ == "socket_rcvbuf must be > 0"@,
            ContextValidationError::SocketSndbufZero => r@ == "socket_sndbuf must be > 0"@,
            ContextValidationError::TermBufferLengthInvalid => {
                r@ == "term_buffer_length must be power-of-two >= 32"@
            },
            ContextValidationError::RetransmitLingerZero => {
                r@ == "retransmit_unicast_linger_ns must be > 0"@
            },
            ContextValidationError::RttmIntervalZero => r@ == "rttm_interval_ns must be > 0"@,
            ContextValidationError::MaxReceiverImagesInvalid => {
                r@ == "max_receiver_images must be in [1, 256]"@
            },
            ContextValidationError::IdleMinParkZero => {
                r@ == "idle_strategy_min_park_ns must be > 0"@
            },
            ContextValidationError::IdleMaxParkLessThanMin => {
                r@ == "idle_strategy_max_park_ns must be >= min_park_ns"@
            },
        },
{
}

} // verus!
