//! The sender: which frames go out, when, and how far.
//!
//! The sender services its publications in turn. For each it decides whether
//! setup, heartbeat or RTT measurement frames are due and how many bytes of
//! published data may be scanned and sent; status messages move the flow control
//! limit, RTT replies the smoothed round trip time, and NAKs lead to
//! retransmissions. Sockets and term buffers are outside: the caller performs
//! what is decided here and reports what came of it.

use crate::context::{ContextValidationError, DriverContext};
use crate::frame::{SockaddrStorage, FRAME_TYPE_PAD};
use crate::term;
use crate::term::{compute_position, HALF_RANGE_I64, PARTITION_COUNT};
use crate::wire;
use vstd::prelude::*;

verus! {

/// Who offers to a publication.
#[derive(Clone, Copy, Debug, PartialEq, Eq, Structural)]
pub enum PublicationKind {
    /// Offered to and scanned on the same thread.
    Local,
    /// Offered to on the application's thread.
    Concurrent,
}

/// What the sender keeps for one publication.
#[derive(Clone, Copy, Debug)]
pub struct PublicationEntry {
    pub kind: PublicationKind,
    pub session_id: i32,
    pub stream_id: i32,
    pub initial_term_id: i32,
    pub term_length: u32,
    pub mtu: u32,
    pub endpoint_idx: usize,
    pub dest_addr: Option<SockaddrStorage>,
    pub needs_setup: bool,
    pub time_of_last_send_ns: i64,
    pub time_of_last_setup_ns: i64,
    /// Flow control: the position up to which the receiver allows sending.
    pub sender_limit: i64,
    pub time_of_last_rttm_ns: i64,
    /// Smoothed round trip time in nanoseconds, zero before the first sample.
    pub last_rtt_ns: i64,
}

/// Where a publication's term buffer stands.
#[derive(Clone, Copy, Debug, PartialEq, Eq, Structural)]
pub struct PublicationState {
    pub active_term_id: i32,
    pub term_offset: u32,
    /// Position up to which data has been scanned for sending.
    pub sender_position: i64,
    /// Position up to which data has been published.
    pub pub_position: i64,
}

/// A setup frame to send.
#[derive(Clone, Copy, Debug)]
pub struct SetupRequest {
    pub endpoint_idx: usize,
    pub session_id: i32,
    pub stream_id: i32,
    pub initial_term_id: i32,
    pub active_term_id: i32,
    pub term_offset: i32,
    pub term_length: i32,
    pub mtu: i32,
    pub ttl: i32,
    pub dest_addr: Option<SockaddrStorage>,
}

/// A heartbeat to send.
#[derive(Clone, Copy, Debug)]
pub struct HeartbeatRequest {
    pub endpoint_idx: usize,
    pub session_id: i32,
    pub stream_id: i32,
    pub term_id: i32,
    pub term_offset: i32,
    pub dest_addr: Option<SockaddrStorage>,
}

/// An RTT measurement request to send.
#[derive(Clone, Copy, Debug)]
pub struct RttmRequest {
    pub endpoint_idx: usize,
    pub session_id: i32,
    pub stream_id: i32,
    pub timestamp_ns: i64,
    pub dest_addr: Option<SockaddrStorage>,
}

/// Control frames that are due for one publication.
#[derive(Clone, Copy, Debug)]
pub struct ControlPlan {
    pub setup: Option<SetupRequest>,
    pub heartbeat: Option<HeartbeatRequest>,
    pub rttm: Option<RttmRequest>,
}

/// A retransmission to perform.
#[derive(Clone, Copy, Debug)]
pub struct RetransmitPlan {
    pub publication: usize,
    pub endpoint_idx: usize,
    pub dest_addr: Option<SockaddrStorage>,
    pub term_id: i32,
    pub term_offset: u32,
    /// Bytes to read from the term buffer at most.
    pub limit: u32,
}

/// More than `interval_ns` has passed since `since_ns`.
pub open spec fn is_due(now_ns: i64, since_ns: i64, interval_ns: i64) -> bool {
    now_ns.wrapping_sub(since_ns) > interval_ns
}

/// A flow control limit after a receiver proposed another: limits only advance.
pub open spec fn advanced_limit(current: i64, proposed: i64) -> i64 {
    if 0 < proposed.wrapping_sub(current) < HALF_RANGE_I64 {
        proposed
    } else {
        current
    }
}

/// A smoothed round trip time after a sample: seven eighths of the old value
/// and one eighth of the sample, in whole nanoseconds. The first sample counts
/// in full; samples that are not positive or absurdly large count not at all.
pub open spec fn smoothed_rtt(current: i64, sample: i64) -> int {
    if sample <= 0 || sample >= HALF_RANGE_I64 {
        current as int
    } else if current == 0 {
        sample as int
    } else {
        current - current as int / 8 + sample as int / 8
    }
}

/// How many bytes may be scanned: no more than the receiver's window, the
/// published data, and the free send slots allow.
pub open spec fn scan_limit_of(
    sender_limit: i64,
    state: PublicationState,
    send_slots: nat,
    mtu: u32,
) -> int {
    let window = sender_limit.wrapping_sub(state.sender_position);
    let data = state.pub_position.wrapping_sub(state.sender_position);
    if window <= 0 || data <= 0 {
        0
    } else {
        let open = if window < data {
            window as int
        } else {
            data as int
        };
        let capped = if open > u32::MAX {
            u32::MAX as int
        } else {
            open
        };
        if send_slots * mtu < capped {
            (send_slots * mtu) as int
        } else {
            capped
        }
    }
}

impl PublicationEntry {
    /// A publication that has not been set up yet. The initial window allows one
    /// full term before the first status message.
    pub open spec fn fresh(
        kind: PublicationKind,
        endpoint_idx: usize,
        session_id: i32,
        stream_id: i32,
        initial_term_id: i32,
        term_length: u32,
        mtu: u32,
        dest_addr: Option<SockaddrStorage>,
    ) -> PublicationEntry {
        PublicationEntry {
            kind,
            session_id,
            stream_id,
            initial_term_id,
            term_length,
            mtu,
            endpoint_idx,
            dest_addr,
            needs_setup: true,
            time_of_last_send_ns: 0,
            time_of_last_setup_ns: 0,
            sender_limit: term_length as i64,
            time_of_last_rttm_ns: 0,
            last_rtt_ns: 0,
        }
    }

    /// The entry belongs to the given session and stream.
    pub open spec fn has_key(self, session_id: i32, stream_id: i32) -> bool {
        self.session_id == session_id && self.stream_id == stream_id
    }

    /// Absolute position of an offset in a term.
    pub open spec fn position(self, term_id: i32, term_offset: u32) -> int {
        term::position_of(term_id, term_offset, self.initial_term_id, self.term_length)
    }

    /// The limit that a status message proposes: the consumer's position and its
    /// window.
    pub open spec fn proposed_limit(
        self,
        consumption_term_id: i32,
        consumption_term_offset: i32,
        receiver_window: i32,
    ) -> i64 {
        (self.position(consumption_term_id, consumption_term_offset as u32) as i64).wrapping_add(
            receiver_window as i64,
        )
    }

    /// The entry after a status message.
    pub open spec fn after_status(
        self,
        consumption_term_id: i32,
        consumption_term_offset: i32,
        receiver_window: i32,
    ) -> PublicationEntry {
        PublicationEntry {
            needs_setup: false,
            sender_limit: advanced_limit(
                self.sender_limit,
                self.proposed_limit(consumption_term_id, consumption_term_offset, receiver_window),
            ),
            ..self
        }
    }

    /// The entry after an RTT sample.
    pub open spec fn after_rtt(self, sample_ns: i64) -> PublicationEntry {
        PublicationEntry { last_rtt_ns: smoothed_rtt(self.last_rtt_ns, sample_ns) as i64, ..self }
    }

    /// The control frames that are due.
    pub open spec fn due(
        self,
        now_ns: i64,
        heartbeat_interval_ns: i64,
        rttm_interval_ns: i64,
        state: PublicationState,
    ) -> ControlPlan {
        ControlPlan {
            setup: if self.needs_setup && is_due(
                now_ns,
                self.time_of_last_setup_ns,
                heartbeat_interval_ns,
            ) {
                Some(
                    SetupRequest {
                        endpoint_idx: self.endpoint_idx,
                        session_id: self.session_id,
                        stream_id: self.stream_id,
                        initial_term_id: self.initial_term_id,
                        active_term_id: state.active_term_id,
                        term_offset: state.term_offset as i32,
                        term_length: self.term_length as i32,
                        mtu: self.mtu as i32,
                        ttl: 0,
                        dest_addr: self.dest_addr,
                    },
                )
            } else {
                None
            },
            heartbeat: if is_due(now_ns, self.time_of_last_send_ns, heartbeat_interval_ns) {
                Some(
                    HeartbeatRequest {
                        endpoint_idx: self.endpoint_idx,
                        session_id: self.session_id,
                        stream_id: self.stream_id,
                        term_id: state.active_term_id,
                        term_offset: state.term_offset as i32,
                        dest_addr: self.dest_addr,
                    },
                )
            } else {
                None
            },
            rttm: if is_due(now_ns, self.time_of_last_rttm_ns, rttm_interval_ns) {
                Some(
                    RttmRequest {
                        endpoint_idx: self.endpoint_idx,
                        session_id: self.session_id,
                        stream_id: self.stream_id,
                        timestamp_ns: now_ns,
                        dest_addr: self.dest_addr,
                    },
                )
            } else {
                None
            },
        }
    }

    /// The entry after the control frames of a plan went out.
    pub open spec fn after_control(self, now_ns: i64, plan: ControlPlan) -> PublicationEntry {
        PublicationEntry {
            time_of_last_setup_ns: if plan.setup is Some {
                now_ns
            } else {
                self.time_of_last_setup_ns
            },
            time_of_last_send_ns: if plan.heartbeat is Some {
                now_ns
            } else {
                self.time_of_last_send_ns
            },
            time_of_last_rttm_ns: if plan.rttm is Some {
                now_ns
            } else {
                self.time_of_last_rttm_ns
            },
            ..self
        }
    }

    /// The position is still in the term buffer: not overwritten and already
    /// published.
    pub open spec fn retransmittable(
        self,
        state: PublicationState,
        term_id: i32,
        term_offset: i32,
    ) -> bool {
        let start = state.sender_position.wrapping_sub(
            ((PARTITION_COUNT - 1) * self.term_length) as i64,
        );
        let from_start = (self.position(term_id, term_offset as u32) as i64).wrapping_sub(start);
        0 <= from_start < state.pub_position.wrapping_sub(start)
    }

    /// A publication that has not been set up yet.
    pub fn new(
        kind: PublicationKind,
        endpoint_idx: usize,
        session_id: i32,
        stream_id: i32,
        initial_term_id: i32,
        term_length: u32,
        mtu: u32,
        dest_addr: Option<SockaddrStorage>,
    ) -> (r: Self)
        ensures
            r == Self::fresh(
                kind,
                endpoint_idx,
                session_id,
                stream_id,
                initial_term_id,
                term_length,
                mtu,
                dest_addr,
            ),
    {
        PublicationEntry {
            kind,
            session_id,
            stream_id,
            initial_term_id,
            term_length,
            mtu,
            endpoint_idx,
            dest_addr,
            needs_setup: true,
            time_of_last_send_ns: 0,
            time_of_last_setup_ns: 0,
            sender_limit: term_length as i64,
            time_of_last_rttm_ns: 0,
            last_rtt_ns: 0,
        }
    }

    /// Moves the flow control limit forward to what a status message proposes.
    pub fn update_sender_limit_from_sm(
        &mut self,
        consumption_term_id: i32,
        consumption_term_offset: i32,
        receiver_window: i32,
    )
        ensures
            *final(self) == (PublicationEntry {
                sender_limit: advanced_limit(
                    old(self).sender_limit,
                    old(self).proposed_limit(
                        consumption_term_id,
                        consumption_term_offset,
                        receiver_window,
                    ),
                ),
                ..*old(self)
            }),
            final(self).sender_limit.wrapping_sub(old(self).sender_limit) >= 0,
    {
        #[verifier::truncate]
        let offset: u32 = consumption_term_offset as u32;
        let consumption_position: i64 = compute_position(
            consumption_term_id,
            offset,
            self.initial_term_id,
            self.term_length,
        );
        let proposed: i64 = consumption_position.wrapping_add(receiver_window as i64);
        let diff: i64 = proposed.wrapping_sub(self.sender_limit);
        if diff > 0 && diff < HALF_RANGE_I64 {
            self.sender_limit = proposed;
        }
    }

    /// Takes an RTT sample into the smoothed round trip time.
    pub fn update_rtt(&mut self, sample_ns: i64)
        ensures
            *final(self) == old(self).after_rtt(sample_ns),
            final(self).last_rtt_ns == smoothed_rtt(old(self).last_rtt_ns, sample_ns),
    {
        if sample_ns <= 0 || sample_ns >= HALF_RANGE_I64 {
            return ;
        }
        if self.last_rtt_ns == 0 {
            self.last_rtt_ns = sample_ns;
        } else {
            let current: i64 = self.last_rtt_ns;
            proof {
                lemma_shift_is_eighth(current);
                lemma_shift_is_eighth(sample_ns);
            }
            self.last_rtt_ns = (current - (current >> 3)) + (sample_ns >> 3);
        }
    }

    /// Absolute position of an offset in a term.
    pub fn compute_position(&self, term_id: i32, term_offset: u32) -> (r: i64)
        ensures
            r == self.position(term_id, term_offset),
    {
        compute_position(term_id, term_offset, self.initial_term_id, self.term_length)
    }

    /// Current flow control limit.
    pub fn sender_limit(&self) -> (r: i64)
        ensures
            r == self.sender_limit,
    {
        self.sender_limit
    }

    /// Smoothed round trip time.
    pub fn last_rtt_ns(&self) -> (r: i64)
        ensures
            r == self.last_rtt_ns,
    {
        self.last_rtt_ns
    }

    /// When the last RTT measurement request went out.
    pub fn time_of_last_rttm_ns(&self) -> (r: i64)
        ensures
            r == self.time_of_last_rttm_ns,
    {
        self.time_of_last_rttm_ns
    }

    /// Notes when an RTT measurement request went out.
    pub fn set_time_of_last_rttm_ns(&mut self, val: i64)
        ensures
            *final(self) == (PublicationEntry { time_of_last_rttm_ns: val, ..*old(self) }),
    {
        self.time_of_last_rttm_ns = val;
    }

    /// How many bytes may be scanned for sending.
    pub fn scan_limit(&self, state: PublicationState, send_slots: usize) -> (r: u32)
        ensures
            r == scan_limit_of(self.sender_limit, state, send_slots as nat, self.mtu),
    {
        let window_avail: i64 = self.sender_limit.wrapping_sub(state.sender_position);
        let data_avail: i64 = state.pub_position.wrapping_sub(state.sender_position);
        let available: i64 = if window_avail <= 0 || data_avail <= 0 {
            0
        } else if window_avail < data_avail {
            window_avail
        } else {
            data_avail
        };
        let limit: u32 = if available > u32::MAX as i64 {
            u32::MAX
        } else {
            available as u32
        };
        let slots: u64 = send_slots as u64;
        let mtu: u64 = self.mtu as u64;
        proof {
            assert(0 <= slots * mtu) by (nonlinear_arith)
                requires
                    slots >= 0,
                    mtu >= 0,
            ;
        }
        match slots.checked_mul(mtu) {
            Some(slot_limit) if slot_limit < limit as u64 => slot_limit as u32,
            _ => limit,
        }
    }
}

/// The first publication of a session and stream is the one that `r` says, and
/// without one there is none.
pub open spec fn is_first_match(
    publications: Seq<PublicationEntry>,
    session_id: i32,
    stream_id: i32,
    r: Option<usize>,
) -> bool {
    &&& r matches Some(i) ==> i < publications.len() && publications[i as int].has_key(
        session_id,
        stream_id,
    )
    &&& forall|k: int|
        0 <= k < publications.len() && #[trigger] publications[k].has_key(session_id, stream_id)
            ==> r is Some && r->0 <= k
}

/// An arithmetic shift by three is a division by eight, rounded down.
proof fn lemma_shift_is_eighth(x: i64)
    ensures
        x >> 3 == x as int / 8,
{
    assert(8 * (x >> 3) <= x && x - 8 * (x >> 3) < 8) by (bit_vector);
}

/// One round over the publications.
#[derive(Clone, Copy, Debug, PartialEq, Eq, Structural)]
pub struct SendCycle {
    /// Publication that the round starts with.
    pub start: usize,
    /// Number of publications.
    pub len: usize,
    /// Publications serviced so far.
    pub visited: usize,
    /// Publication whose turn it is.
    pub idx: usize,
    /// Bytes scanned so far, wrapping.
    pub total_bytes: i32,
}

/// The `k`-th publication of a round that starts with `start`.
pub open spec fn turn(start: int, len: int, k: int) -> int {
    if start + k < len {
        start + k
    } else {
        start + k - len
    }
}

/// Publication `i` has its turn in a round that starts with `start`.
pub open spec fn has_turn(start: int, len: int, i: int) -> bool {
    exists|k: int| 0 <= k < len && #[trigger] turn(start, len, k) == i
}

impl SendCycle {
    /// The round is under way and knows whose turn it is.
    pub open spec fn wf(self) -> bool {
        &&& self.start < self.len
        &&& self.visited <= self.len
        &&& self.idx == turn(self.start as int, self.len as int, self.visited as int)
    }
}

/// What the sender decides by.
#[derive(Debug)]
pub struct SenderAgent {
    pub endpoint_count: usize,
    pub publications: Vec<PublicationEntry>,
    pub duty_cycle_ratio: usize,
    pub duty_cycle_counter: usize,
    pub round_robin_index: usize,
    pub heartbeat_interval_ns: i64,
    pub rttm_interval_ns: i64,
}

impl SenderAgent {
    /// All but the publications is as before.
    pub open spec fn same_settings(self, other: SenderAgent) -> bool {
        &&& self.endpoint_count == other.endpoint_count
        &&& self.duty_cycle_ratio == other.duty_cycle_ratio
        &&& self.duty_cycle_counter == other.duty_cycle_counter
        &&& self.round_robin_index == other.round_robin_index
        &&& self.heartbeat_interval_ns == other.heartbeat_interval_ns
        &&& self.rttm_interval_ns == other.rttm_interval_ns
    }

    /// Name of the agent.
    pub fn name(&self) -> (r: &str)
        ensures
            r@ == "aeron-sender"@,
    {
        "aeron-sender"
    }

    /// A sender without publications.
    pub fn new(ctx: &DriverContext) -> (r: Result<Self, ContextValidationError>)
        ensures
            r is Ok <==> ctx.valid(),
            match r {
                Ok(agent) => {
                    &&& agent.publications@ == Seq::<PublicationEntry>::empty()
                    &&& agent.endpoint_count == 0
                    &&& agent.duty_cycle_ratio == ctx.send_duty_cycle_ratio
                    &&& agent.duty_cycle_counter == 0
                    &&& agent.round_robin_index == 0
                    &&& agent.heartbeat_interval_ns == ctx.heartbeat_interval_ns
                    &&& agent.rttm_interval_ns == ctx.rttm_interval_ns
                },
                Err(e) => {
                    &&& ctx.violates(e)
                    &&& forall|other: ContextValidationError|
                        DriverContext::rank(other) < DriverContext::rank(e)
                            ==> !#[trigger] ctx.violates(other)
                },
            },
    {
        match ctx.validate() {
            Ok(()) => {},
            Err(e) => {
                return Err(e);
            },
        }
        Ok(
            SenderAgent {
                endpoint_count: 0,
                publications: Vec::new(),
                duty_cycle_ratio: ctx.send_duty_cycle_ratio,
                duty_cycle_counter: 0,
                round_robin_index: 0,
                heartbeat_interval_ns: ctx.heartbeat_interval_ns,
                rttm_interval_ns: ctx.rttm_interval_ns,
            },
        )
    }

    /// Takes in an endpoint that has been registered. Endpoints are numbered in
    /// the order in which they come.
    pub fn add_endpoint(&mut self) -> (r: usize)
        requires
            old(self).endpoint_count < usize::MAX,
        ensures
            r == old(self).endpoint_count,
            final(self).endpoint_count == old(self).endpoint_count + 1,
            *final(self) == (SenderAgent {
                endpoint_count: final(self).endpoint_count,
                ..*old(self)
            }),
    {
        let idx: usize = self.endpoint_count;
        self.endpoint_count = idx + 1;
        idx
    }

    /// Takes in a publication of the sender's own thread. `log_created` tells
    /// whether its term buffers could be made.
    pub fn add_publication(
        &mut self,
        log_created: bool,
        endpoint_idx: usize,
        session_id: i32,
        stream_id: i32,
        initial_term_id: i32,
        term_length: u32,
        mtu: u32,
    ) -> (r: Option<usize>)
        ensures
            final(self).same_settings(*old(self)),
            r == if log_created {
                Some(old(self).publications@.len() as usize)
            } else {
                None
            },
            final(self).publications@ == if log_created {
                old(self).publications@.push(
                    PublicationEntry::fresh(
                        PublicationKind::Local,
                        endpoint_idx,
                        session_id,
                        stream_id,
                        initial_term_id,
                        term_length,
                        mtu,
                        None,
                    ),
                )
            } else {
                old(self).publications@
            },
    {
        if !log_created {
            return None;
        }
        let idx: usize = self.publications.len();
        self.publications.push(
            PublicationEntry::new(
                PublicationKind::Local,
                endpoint_idx,
                session_id,
                stream_id,
                initial_term_id,
                term_length,
                mtu,
                None,
            ),
        );
        Some(idx)
    }

    /// Takes in a publication that the application offers to from its own thread.
    pub fn add_concurrent_publication(
        &mut self,
        log_created: bool,
        endpoint_idx: usize,
        session_id: i32,
        stream_id: i32,
        initial_term_id: i32,
        term_length: u32,
        mtu: u32,
    ) -> (r: Option<usize>)
        ensures
            final(self).same_settings(*old(self)),
            r == if log_created {
                Some(old(self).publications@.len() as usize)
            } else {
                None
            },
            final(self).publications@ == if log_created {
                old(self).publications@.push(
                    PublicationEntry::fresh(
                        PublicationKind::Concurrent,
                        endpoint_idx,
                        session_id,
                        stream_id,
                        initial_term_id,
                        term_length,
                        mtu,
                        None,
                    ),
                )
            } else {
                old(self).publications@
            },
    {
        if !log_created {
            return None;
        }
        let idx: usize = self.publications.len();
        self.publications.push(
            PublicationEntry::new(
                PublicationKind::Concurrent,
                endpoint_idx,
                session_id,
                stream_id,
                initial_term_id,
                term_length,
                mtu,
                None,
            ),
        );
        Some(idx)
    }

    /// Takes in a publication that a client deposited, with an endpoint of its
    /// own. `registered` tells whether that endpoint could be registered; if not,
    /// the publication is dropped.
    pub fn add_bridged_publication(
        &mut self,
        registered: bool,
        session_id: i32,
        stream_id: i32,
        initial_term_id: i32,
        term_length: u32,
        mtu: u32,
        dest_addr: SockaddrStorage,
    ) -> (r: Option<usize>)
        requires
            old(self).endpoint_count < usize::MAX,
        ensures
            !registered ==> r is None && *final(self) == *old(self),
            registered ==> {
                &&& r == Some(old(self).publications@.len() as usize)
                &&& final(self).endpoint_count == old(self).endpoint_count + 1
                &&& final(self).publications@ == old(self).publications@.push(
                    PublicationEntry::fresh(
                        PublicationKind::Concurrent,
                        old(self).endpoint_count,
                        session_id,
                        stream_id,
                        initial_term_id,
                        term_length,
                        mtu,
                        Some(dest_addr),
                    ),
                )
                &&& final(self).same_settings(
                    SenderAgent { endpoint_count: final(self).endpoint_count, ..*old(self) },
                )
            },
    {
        if !registered {
            return None;
        }
        let endpoint_idx: usize = self.add_endpoint();
        let idx: usize = self.publications.len();
        self.publications.push(
            PublicationEntry::new(
                PublicationKind::Concurrent,
                endpoint_idx,
                session_id,
                stream_id,
                initial_term_id,
                term_length,
                mtu,
                Some(dest_addr),
            ),
        );
        Some(idx)
    }

    /// A publication of the sender's own thread.
    ///
    /// `None` if the index is out of bounds or that of a concurrent publication.
    pub fn publication_mut(&mut self, idx: usize) -> (r: Option<&mut PublicationEntry>)
        ensures
            r is Some <==> idx < old(self).publications@.len() && old(
                self,
            ).publications@[idx as int].kind == PublicationKind::Local,
            match r {
                Some(entry) => {
                    &&& *entry == old(self).publications@[idx as int]
                    &&& final(self).same_settings(*old(self))
                    &&& final(self).publications@ == old(self).publications@.update(
                        idx as int,
                        *final(entry),
                    )
                },
                None => *final(self) == *old(self),
            },
    {
        if idx < self.publications.len() {
            match self.publications[idx].kind {
                PublicationKind::Local => Some(&mut self.publications[idx]),
                PublicationKind::Concurrent => None,
            }
        } else {
            None
        }
    }

    /// Flow control limit of a publication, `None` if the index is out of bounds.
    pub fn publication_sender_limit(&self, idx: usize) -> (r: Option<i64>)
        ensures
            r == if idx < self.publications@.len() {
                Some(self.publications@[idx as int].sender_limit)
            } else {
                None
            },
    {
        if idx < self.publications.len() {
            Some(self.publications[idx].sender_limit)
        } else {
            None
        }
    }

    /// Whether a publication still waits for its first status message, `None` if
    /// the index is out of bounds.
    pub fn publication_needs_setup(&self, idx: usize) -> (r: Option<bool>)
        ensures
            r == if idx < self.publications@.len() {
                Some(self.publications@[idx as int].needs_setup)
            } else {
                None
            },
    {
        if idx < self.publications.len() {
            Some(self.publications[idx].needs_setup)
        } else {
            None
        }
    }

    /// Smoothed round trip time of a publication, `None` if the index is out of
    /// bounds.
    pub fn publication_last_rtt_ns(&self, idx: usize) -> (r: Option<i64>)
        ensures
            r == if idx < self.publications@.len() {
                Some(self.publications@[idx as int].last_rtt_ns)
            } else {
                None
            },
    {
        if idx < self.publications.len() {
            Some(self.publications[idx].last_rtt_ns)
        } else {
            None
        }
    }

    /// The publication that the next round starts with.
    pub open spec fn next_start(self) -> int {
        if self.round_robin_index >= self.publications@.len() {
            0
        } else {
            self.round_robin_index as int
        }
    }

    /// Starts a round over the publications, each round with the next one in turn.
    pub fn begin_send(&mut self) -> (r: Option<SendCycle>)
        ensures
            final(self).publications@ == old(self).publications@,
            old(self).publications@.len() == 0 ==> r is None && *final(self) == *old(self),
            old(self).publications@.len() > 0 ==> {
                &&& r == Some(
                    SendCycle {
                        start: old(self).next_start() as usize,
                        len: old(self).publications@.len() as usize,
                        visited: 0,
                        idx: old(self).next_start() as usize,
                        total_bytes: 0,
                    },
                )
                &&& r->0.wf()
                &&& final(self).round_robin_index == old(self).next_start() + 1
                &&& *final(self) == (SenderAgent {
                    round_robin_index: final(self).round_robin_index,
                    ..*old(self)
                })
            },
    {
        let len: usize = self.publications.len();
        if len == 0 {
            return None;
        }
        if self.round_robin_index >= len {
            self.round_robin_index = 0;
        }
        let start: usize = self.round_robin_index;
        self.round_robin_index = start + 1;
        Some(SendCycle { start, len, visited: 0, idx: start, total_bytes: 0 })
    }

    /// Decides which control frames are due for a publication and notes that they
    /// go out now.
    pub fn plan_control(&mut self, idx: usize, now_ns: i64, state: PublicationState) -> (r:
        ControlPlan)
        requires
            idx < old(self).publications@.len(),
        ensures
            r == old(self).publications@[idx as int].due(
                now_ns,
                old(self).heartbeat_interval_ns,
                old(self).rttm_interval_ns,
                state,
            ),
            final(self).same_settings(*old(self)),
            final(self).publications@ == old(self).publications@.update(
                idx as int,
                old(self).publications@[idx as int].after_control(now_ns, r),
            ),
    {
        let mut entry = self.publications[idx];
        #[verifier::truncate]
        let term_offset: i32 = state.term_offset as i32;
        #[verifier::truncate]
        let term_length: i32 = entry.term_length as i32;
        #[verifier::truncate]
        let mtu: i32 = entry.mtu as i32;
        let setup = if entry.needs_setup && now_ns.wrapping_sub(entry.time_of_last_setup_ns)
            > self.heartbeat_interval_ns {
            Some(
                SetupRequest {
                    endpoint_idx: entry.endpoint_idx,
                    session_id: entry.session_id,
                    stream_id: entry.stream_id,
                    initial_term_id: entry.initial_term_id,
                    active_term_id: state.active_term_id,
                    term_offset,
                    term_length,
                    mtu,
                    ttl: 0,
                    dest_addr: entry.dest_addr,
                },
            )
        } else {
            None
        };
        let heartbeat = if now_ns.wrapping_sub(entry.time_of_last_send_ns)
            > self.heartbeat_interval_ns {
            Some(
                HeartbeatRequest {
                    endpoint_idx: entry.endpoint_idx,
                    session_id: entry.session_id,
                    stream_id: entry.stream_id,
                    term_id: state.active_term_id,
                    term_offset,
                    dest_addr: entry.dest_addr,
                },
            )
        } else {
            None
        };
        let rttm = if now_ns.wrapping_sub(entry.time_of_last_rttm_ns) > self.rttm_interval_ns {
            Some(
                RttmRequest {
                    endpoint_idx: entry.endpoint_idx,
                    session_id: entry.session_id,
                    stream_id: entry.stream_id,
                    timestamp_ns: now_ns,
                    dest_addr: entry.dest_addr,
                },
            )
        } else {
            None
        };
        if setup.is_some() {
            entry.time_of_last_setup_ns = now_ns;
        }
        if heartbeat.is_some() {
            entry.time_of_last_send_ns = now_ns;
        }
        if rttm.is_some() {
            entry.time_of_last_rttm_ns = now_ns;
        }
        self.publications.set(idx, entry);
        ControlPlan { setup, heartbeat, rttm }
    }

    /// How many bytes of a publication may be scanned, with so many send slots
    /// free.
    pub fn plan_scan(&self, idx: usize, state: PublicationState, send_slots: usize) -> (r: u32)
        requires
            idx < self.publications@.len(),
        ensures
            r == scan_limit_of(
                self.publications@[idx as int].sender_limit,
                state,
                send_slots as nat,
                self.publications@[idx as int].mtu,
            ),
    {
        self.publications[idx].scan_limit(state, send_slots)
    }

    /// Notes how many bytes were scanned and passes the turn on.
    pub fn on_scanned(&mut self, cycle: &mut SendCycle, scanned: u32, now_ns: i64)
        requires
            old(cycle).wf(),
            old(cycle).visited < old(cycle).len,
            old(cycle).len == old(self).publications@.len(),
        ensures
            final(self).same_settings(*old(self)),
            final(self).publications@ == if scanned > 0 {
                old(self).publications@.update(
                    old(cycle).idx as int,
                    PublicationEntry {
                        time_of_last_send_ns: now_ns,
                        ..old(self).publications@[old(cycle).idx as int]
                    },
                )
            } else {
                old(self).publications@
            },
            final(cycle).wf(),
            *final(cycle) == (SendCycle {
                visited: (old(cycle).visited + 1) as usize,
                idx: turn(
                    old(cycle).start as int,
                    old(cycle).len as int,
                    old(cycle).visited + 1,
                ) as usize,
                total_bytes: old(cycle).total_bytes.wrapping_add(scanned as i32),
                ..*old(cycle)
            }),
    {
        if scanned > 0 {
            let mut entry = self.publications[cycle.idx];
            entry.time_of_last_send_ns = now_ns;
            self.publications.set(cycle.idx, entry);
        }
        #[verifier::truncate]
        let bytes: i32 = scanned as i32;
        cycle.total_bytes = cycle.total_bytes.wrapping_add(bytes);
        cycle.visited = cycle.visited + 1;
        cycle.idx = cycle.idx + 1;
        if cycle.idx >= cycle.len {
            cycle.idx = 0;
        }
    }

    /// Takes a status message: the publications that it is for are set up, and
    /// their flow control limit advances.
    pub fn on_status_message(
        &mut self,
        session_id: i32,
        stream_id: i32,
        consumption_term_id: i32,
        consumption_term_offset: i32,
        receiver_window: i32,
    )
        ensures
            final(self).same_settings(*old(self)),
            final(self).publications@ == old(self).publications@.map_values(
                |p: PublicationEntry|
                    if p.has_key(session_id, stream_id) {
                        p.after_status(
                            consumption_term_id,
                            consumption_term_offset,
                            receiver_window,
                        )
                    } else {
                        p
                    },
            ),
    {
        let ghost updated = |p: PublicationEntry|
            if p.has_key(session_id, stream_id) {
                p.after_status(consumption_term_id, consumption_term_offset, receiver_window)
            } else {
                p
            };
        let mut i: usize = 0;
        while i < self.publications.len()
            invariant
                i <= self.publications@.len(),
                self.publications@.len() == old(self).publications@.len(),
                self.same_settings(*old(self)),
                updated == (|p: PublicationEntry|
                    if p.has_key(session_id, stream_id) {
                        p.after_status(
                            consumption_term_id,
                            consumption_term_offset,
                            receiver_window,
                        )
                    } else {
                        p
                    }),
                forall|k: int|
                    0 <= k < i ==> #[trigger] self.publications@[k] == updated(
                        old(self).publications@[k],
                    ),
                forall|k: int|
                    i <= k < self.publications@.len() ==> #[trigger] self.publications@[k] == old(
                        self,
                    ).publications@[k],
            decreases self.publications@.len() - i,
        {
            let mut entry = self.publications[i];
            if entry.session_id == session_id && entry.stream_id == stream_id {
                entry.needs_setup = false;
                entry.update_sender_limit_from_sm(
                    consumption_term_id,
                    consumption_term_offset,
                    receiver_window,
                );
                self.publications.set(i, entry);
            }
            i += 1;
        }
        assert(self.publications@ =~= old(self).publications@.map_values(updated));
    }

    /// Takes the reply to an RTT measurement: the time since it was asked for, less
    /// the time that the receiver took, is a sample for the publications that it
    /// is for.
    pub fn on_rttm_reply(
        &mut self,
        now_ns: i64,
        session_id: i32,
        stream_id: i32,
        echo_timestamp: i64,
        reception_delta: i64,
    )
        ensures
            final(self).same_settings(*old(self)),
            final(self).publications@ == old(self).publications@.map_values(
                |p: PublicationEntry|
                    if p.has_key(session_id, stream_id) {
                        p.after_rtt(
                            now_ns.wrapping_sub(echo_timestamp).wrapping_sub(reception_delta),
                        )
                    } else {
                        p
                    },
            ),
    {
        let rtt_sample: i64 = now_ns.wrapping_sub(echo_timestamp).wrapping_sub(reception_delta);
        let ghost updated = |p: PublicationEntry|
            if p.has_key(session_id, stream_id) {
                p.after_rtt(rtt_sample)
            } else {
                p
            };
        let mut i: usize = 0;
        while i < self.publications.len()
            invariant
                i <= self.publications@.len(),
                self.publications@.len() == old(self).publications@.len(),
                self.same_settings(*old(self)),
                updated == (|p: PublicationEntry|
                    if p.has_key(session_id, stream_id) {
                        p.after_rtt(rtt_sample)
                    } else {
                        p
                    }),
                forall|k: int|
                    0 <= k < i ==> #[trigger] self.publications@[k] == updated(
                        old(self).publications@[k],
                    ),
                forall|k: int|
                    i <= k < self.publications@.len() ==> #[trigger] self.publications@[k] == old(
                        self,
                    ).publications@[k],
            decreases self.publications@.len() - i,
        {
            let mut entry = self.publications[i];
            if entry.session_id == session_id && entry.stream_id == stream_id {
                entry.update_rtt(rtt_sample);
                self.publications.set(i, entry);
            }
            i += 1;
        }
        assert(self.publications@ =~= old(self).publications@.map_values(updated));
    }

    /// The first publication of a session and stream.
    pub fn find_publication(&self, session_id: i32, stream_id: i32) -> (r: Option<usize>)
        ensures
            match r {
                Some(i) => {
                    &&& i < self.publications@.len()
                    &&& self.publications@[i as int].has_key(session_id, stream_id)
                    &&& forall|k: int|
                        0 <= k < i ==> !#[trigger] self.publications@[k].has_key(
                            session_id,
                            stream_id,
                        )
                },
                None => forall|k: int|
                    0 <= k < self.publications@.len() ==> !#[trigger] self.publications@[k].has_key(
                        session_id,
                        stream_id,
                    ),
            },
            is_first_match(self.publications@, session_id, stream_id, r),
    {
        let mut i: usize = 0;
        while i < self.publications.len()
            invariant
                i <= self.publications@.len(),
                forall|k: int|
                    0 <= k < i ==> !#[trigger] self.publications@[k].has_key(
                        session_id,
                        stream_id,
                    ),
            decreases self.publications@.len() - i,
        {
            let entry = &self.publications[i];
            if entry.session_id == session_id && entry.stream_id == stream_id {
                return Some(i);
            }
            i += 1;
        }
        None
    }

    /// Decides on a retransmission that a NAK asked for: `length` bytes from an
    /// offset in a term of publication `idx`, at most one datagram. `None` if the
    /// data is overwritten or not yet written.
    pub fn plan_retransmit(
        &self,
        idx: usize,
        state: PublicationState,
        term_id: i32,
        term_offset: i32,
        length: i32,
    ) -> (r: Option<RetransmitPlan>)
        requires
            idx < self.publications@.len(),
        ensures
            r == if self.publications@[idx as int].retransmittable(state, term_id, term_offset) {
                let entry = self.publications@[idx as int];
                Some(
                    RetransmitPlan {
                        publication: idx,
                        endpoint_idx: entry.endpoint_idx,
                        dest_addr: entry.dest_addr,
                        term_id,
                        term_offset: term_offset as u32,
                        limit: if (length as u32) < entry.mtu {
                            length as u32
                        } else {
                            entry.mtu
                        },
                    },
                )
            } else {
                None
            },
    {
        let entry = self.publications[idx];
        #[verifier::truncate]
        let offset: u32 = term_offset as u32;
        #[verifier::truncate]
        let len: u32 = length as u32;
        let nak_position: i64 = entry.compute_position(term_id, offset);
        let term_length: i64 = entry.term_length as i64;
        let others: i64 = PARTITION_COUNT as i64 - 1;
        assert(others * term_length == 3 * term_length) by (nonlinear_arith)
            requires
                others == 3,
        ;
        let span: i64 = others * term_length;
        let buffer_start: i64 = state.sender_position.wrapping_sub(span);
        let from_start: i64 = nak_position.wrapping_sub(buffer_start);
        let range: i64 = state.pub_position.wrapping_sub(buffer_start);
        if from_start < 0 || from_start >= range {
            return None;
        }
        let limit: u32 = if len < entry.mtu {
            len
        } else {
            entry.mtu
        };
        Some(
            RetransmitPlan {
                publication: idx,
                endpoint_idx: entry.endpoint_idx,
                dest_addr: entry.dest_addr,
                term_id,
                term_offset: offset,
                limit,
            },
        )
    }

    /// Whether the control side (status messages, NAKs, new publications) is to be
    /// polled after a round that sent so many bytes: when nothing was sent, and
    /// after every `duty_cycle_ratio` rounds that did.
    pub fn poll_control_due(&mut self, bytes_sent: i32) -> (r: bool)
        ensures
            r == (bytes_sent == 0 || old(self).duty_cycle_counter >= old(self).duty_cycle_ratio),
            *final(self) == (SenderAgent {
                duty_cycle_counter: if r {
                    0
                } else {
                    (old(self).duty_cycle_counter + 1) as usize
                },
                ..*old(self)
            }),
    {
        if bytes_sent == 0 || self.duty_cycle_counter >= self.duty_cycle_ratio {
            self.duty_cycle_counter = 0;
            true
        } else {
            self.duty_cycle_counter = self.duty_cycle_counter + 1;
            false
        }
    }
}

/// Whether a scanned frame goes out: padding does not.
pub fn is_transmitted(frame: &[u8]) -> (r: bool)
    ensures
        r == !(frame@.len() >= 8 && wire::u16_at(frame@, 6) == FRAME_TYPE_PAD),
{
    if frame.len() >= 8 {
        wire::read_u16(frame, 6) != FRAME_TYPE_PAD
    } else {
        true
    }
}

/// A round gives every publication its turn, and no turn twice.
pub proof fn law_round_visits_each_publication_once(start: int, len: int)
    requires
        0 <= start < len,
    ensures
        forall|i: int| 0 <= i < len ==> #[trigger] has_turn(start, len, i),
        forall|j: int, k: int|
            0 <= j < k < len ==> #[trigger] turn(start, len, j) != #[trigger] turn(start, len, k),
        forall|k: int| 0 <= k < len ==> 0 <= #[trigger] turn(start, len, k) < len,
{
    assert forall|i: int| 0 <= i < len implies #[trigger] has_turn(start, len, i) by {
        let k = if i >= start {
            i - start
        } else {
            i - start + len
        };
        assert(turn(start, len, k) == i);
    }
}

/// The next round starts with the publication after the one that this round
/// starts with.
pub proof fn law_rounds_rotate(before: SenderAgent, after: SenderAgent)
    requires
        before.publications@.len() > 0,
        after.publications@.len() == before.publications@.len(),
        after.round_robin_index == before.next_start() + 1,
    ensures
        after.next_start() == turn(before.next_start(), before.publications@.len() as int, 1),
{
}

/// Scanning as far as allowed goes neither beyond what the receiver permits nor
/// beyond what has been published.
pub proof fn law_scan_stays_within_limits(
    sender_limit: i64,
    state: PublicationState,
    send_slots: nat,
    mtu: u32,
)
    ensures
        ({
            let limit = scan_limit_of(sender_limit, state, send_slots, mtu);
            &&& 0 <= limit <= u32::MAX
            &&& limit > 0 ==> limit <= sender_limit.wrapping_sub(state.sender_position)
            &&& limit > 0 ==> limit <= state.pub_position.wrapping_sub(state.sender_position)
            &&& limit > 0 ==> limit <= send_slots * mtu
        }),
{
    assert(0 <= send_slots * mtu) by (nonlinear_arith);
}

/// Without a window or without data nothing is scanned, and with both and a free
/// slot something is.
pub proof fn law_scan_blocks_exactly_at_limits(
    sender_limit: i64,
    state: PublicationState,
    send_slots: nat,
    mtu: u32,
)
    requires
        send_slots > 0,
        mtu > 0,
    ensures
        scan_limit_of(sender_limit, state, send_slots, mtu) == 0 <==> sender_limit.wrapping_sub(
            state.sender_position,
        ) <= 0 || state.pub_position.wrapping_sub(state.sender_position) <= 0,
{
    assert(send_slots * mtu > 0) by (nonlinear_arith)
        requires
            send_slots > 0,
            mtu > 0,
    ;
}

/// The smoothed round trip time stays between its old value and the sample.
pub proof fn law_rtt_between_old_and_sample(current: i64, sample: i64)
    requires
        current > 0,
        0 < sample < HALF_RANGE_I64,
    ensures
        current <= sample ==> current <= smoothed_rtt(current, sample) <= sample,
        sample <= current ==> sample <= smoothed_rtt(current, sample) <= current,
{
}

/// Narrowing an offset to its bits and back gives the offset.
proof fn lemma_bits_of_u32(x: u32)
    ensures
        (x as i32) as u32 == x,
        x <= i32::MAX ==> x as i32 == x,
{
    assert((x as i32) as u32 == x) by (bit_vector);
}

/// The control frames that go out name the publication and where its log stands:
/// a setup frame has the log's active term and its offset there beside what the
/// publication was made with, a heartbeat has the same place, and a measurement
/// request has the current time.
pub proof fn law_control_frames_name_where_the_log_stands(
    before: SenderAgent,
    after: SenderAgent,
    idx: usize,
    now_ns: i64,
    state: PublicationState,
    r: ControlPlan,
)
    requires
        idx < before.publications@.len(),
        exists|agent: &mut SenderAgent|
            *agent == before && *final(agent) == after && #[trigger] call_ensures(
                SenderAgent::plan_control,
                (agent, idx, now_ns, state),
                r,
            ),
    ensures
        ({
            let p = before.publications@[idx as int];
            &&& r.setup matches Some(f) ==> {
                &&& f.active_term_id == state.active_term_id
                &&& f.term_offset as u32 == state.term_offset
                &&& state.term_offset <= i32::MAX ==> f.term_offset == state.term_offset
                &&& f.session_id == p.session_id
                &&& f.stream_id == p.stream_id
                &&& f.initial_term_id == p.initial_term_id
                &&& f.term_length as u32 == p.term_length
                &&& f.mtu as u32 == p.mtu
                &&& f.ttl == 0
                &&& f.endpoint_idx == p.endpoint_idx
                &&& f.dest_addr == p.dest_addr
            }
            &&& r.heartbeat matches Some(f) ==> {
                &&& f.term_id == state.active_term_id
                &&& f.term_offset as u32 == state.term_offset
                &&& state.term_offset <= i32::MAX ==> f.term_offset == state.term_offset
                &&& f.session_id == p.session_id
                &&& f.stream_id == p.stream_id
                &&& f.endpoint_idx == p.endpoint_idx
                &&& f.dest_addr == p.dest_addr
            }
            &&& r.rttm matches Some(f) ==> {
                &&& f.timestamp_ns == now_ns
                &&& f.session_id == p.session_id
                &&& f.stream_id == p.stream_id
                &&& f.endpoint_idx == p.endpoint_idx
                &&& f.dest_addr == p.dest_addr
            }
        }),
{
    lemma_bits_of_u32(state.term_offset);
    lemma_bits_of_u32(before.publications@[idx as int].term_length);
    lemma_bits_of_u32(before.publications@[idx as int].mtu);
}

/// A frame goes out exactly when more than its interval has passed since the last
/// one, and a setup frame only while the publication still waits for its receiver.
/// Each that goes out is noted with the current time, and nothing else changes.
pub proof fn law_control_frames_go_out_when_due(
    before: SenderAgent,
    after: SenderAgent,
    idx: usize,
    now_ns: i64,
    state: PublicationState,
    r: ControlPlan,
)
    requires
        idx < before.publications@.len(),
        exists|agent: &mut SenderAgent|
            *agent == before && *final(agent) == after && #[trigger] call_ensures(
                SenderAgent::plan_control,
                (agent, idx, now_ns, state),
                r,
            ),
    ensures
        ({
            let p = before.publications@[idx as int];
            let q = after.publications@[idx as int];
            &&& r.setup is Some <==> p.needs_setup && now_ns.wrapping_sub(p.time_of_last_setup_ns)
                > before.heartbeat_interval_ns
            &&& r.heartbeat is Some <==> now_ns.wrapping_sub(p.time_of_last_send_ns)
                > before.heartbeat_interval_ns
            &&& r.rttm is Some <==> now_ns.wrapping_sub(p.time_of_last_rttm_ns)
                > before.rttm_interval_ns
            &&& r.setup is Some ==> q.time_of_last_setup_ns == now_ns
            &&& r.setup is None ==> q.time_of_last_setup_ns == p.time_of_last_setup_ns
            &&& r.heartbeat is Some ==> q.time_of_last_send_ns == now_ns
            &&& r.heartbeat is None ==> q.time_of_last_send_ns == p.time_of_last_send_ns
            &&& r.rttm is Some ==> q.time_of_last_rttm_ns == now_ns
            &&& r.rttm is None ==> q.time_of_last_rttm_ns == p.time_of_last_rttm_ns
            &&& q.kind == p.kind
            &&& q.session_id == p.session_id
            &&& q.stream_id == p.stream_id
            &&& q.initial_term_id == p.initial_term_id
            &&& q.term_length == p.term_length
            &&& q.mtu == p.mtu
            &&& q.endpoint_idx == p.endpoint_idx
            &&& q.dest_addr == p.dest_addr
            &&& q.needs_setup == p.needs_setup
            &&& q.sender_limit == p.sender_limit
            &&& q.last_rtt_ns == p.last_rtt_ns
            &&& after.publications@.len() == before.publications@.len()
            &&& forall|k: int|
                0 <= k < before.publications@.len() && k != idx ==> #[trigger] after.publications@[k]
                    == before.publications@[k]
            &&& after.endpoint_count == before.endpoint_count
            &&& after.duty_cycle_ratio == before.duty_cycle_ratio
            &&& after.duty_cycle_counter == before.duty_cycle_counter
            &&& after.round_robin_index == before.round_robin_index
            &&& after.heartbeat_interval_ns == before.heartbeat_interval_ns
            &&& after.rttm_interval_ns == before.rttm_interval_ns
        }),
{
}

/// A frame that went out is not sent again before its interval has passed,
/// wherever the log stands by then.
pub proof fn law_control_frames_are_spaced(
    before: SenderAgent,
    between: SenderAgent,
    after: SenderAgent,
    idx: usize,
    now_ns: i64,
    later_ns: i64,
    state: PublicationState,
    later_state: PublicationState,
    r: ControlPlan,
    later_r: ControlPlan,
)
    requires
        idx < before.publications@.len(),
        exists|agent: &mut SenderAgent|
            *agent == before && *final(agent) == between && #[trigger] call_ensures(
                SenderAgent::plan_control,
                (agent, idx, now_ns, state),
                r,
            ),
        exists|agent: &mut SenderAgent|
            *agent == between && *final(agent) == after && #[trigger] call_ensures(
                SenderAgent::plan_control,
                (agent, idx, later_ns, later_state),
                later_r,
            ),
    ensures
        r.setup is Some && later_ns.wrapping_sub(now_ns) <= before.heartbeat_interval_ns
            ==> later_r.setup is None,
        r.heartbeat is Some && later_ns.wrapping_sub(now_ns) <= before.heartbeat_interval_ns
            ==> later_r.heartbeat is None,
        r.rttm is Some && later_ns.wrapping_sub(now_ns) <= before.rttm_interval_ns
            ==> later_r.rttm is None,
{
    law_control_frames_go_out_when_due(before, between, idx, now_ns, state, r);
    law_control_frames_go_out_when_due(between, after, idx, later_ns, later_state, later_r);
}

/// The scan goes as far as is allowed and no farther: without window or data
/// nothing is scanned; else the limit is the least of the receiver's window, the
/// published data, what the free send slots carry, and what its type can hold.
pub proof fn law_scan_goes_as_far_as_allowed(
    entry: &PublicationEntry,
    state: PublicationState,
    send_slots: usize,
    r: u32,
)
    requires
        call_ensures(PublicationEntry::scan_limit, (entry, state, send_slots), r),
    ensures
        ({
            let window = entry.sender_limit.wrapping_sub(state.sender_position) as int;
            let data = state.pub_position.wrapping_sub(state.sender_position) as int;
            let slots = send_slots * entry.mtu;
            &&& window <= 0 || data <= 0 ==> r == 0
            &&& window > 0 && data > 0 ==> {
                &&& r <= window
                &&& r <= data
                &&& r <= slots
                &&& r == window || r == data || r == slots || r == u32::MAX
                &&& data <= window && data <= slots && data <= u32::MAX ==> r == data
            }
        }),
{
    assert(0 <= send_slots * entry.mtu) by (nonlinear_arith);
}

/// Planning a scan for a publication goes by that publication's own limit and
/// size of datagrams.
pub proof fn law_planned_scan_goes_as_far_as_allowed(
    agent: &SenderAgent,
    idx: usize,
    state: PublicationState,
    send_slots: usize,
    r: u32,
)
    requires
        idx < agent.publications@.len(),
        call_ensures(SenderAgent::plan_scan, (agent, idx, state, send_slots), r),
    ensures
        ({
            let p = agent.publications@[idx as int];
            let window = p.sender_limit.wrapping_sub(state.sender_position) as int;
            let data = state.pub_position.wrapping_sub(state.sender_position) as int;
            let slots = send_slots * p.mtu;
            &&& window <= 0 || data <= 0 ==> r == 0
            &&& window > 0 && data > 0 ==> {
                &&& r <= window
                &&& r <= data
                &&& r <= slots
                &&& r == window || r == data || r == slots || r == u32::MAX
                &&& data <= window && data <= slots && data <= u32::MAX ==> r == data
            }
        }),
{
    assert(0 <= send_slots * agent.publications@[idx as int].mtu) by (nonlinear_arith);
}

/// A NAK is answered for every position that is still in the term buffer, that is
/// up to three terms behind the sender position, and has been published; and for
/// no other. Positions are those of the stream, counted from its first byte.
pub proof fn law_kept_positions_are_retransmitted(
    agent: &SenderAgent,
    idx: usize,
    state: PublicationState,
    term_id: i32,
    term_offset: i32,
    length: i32,
    r: Option<RetransmitPlan>,
)
    requires
        idx < agent.publications@.len(),
        call_ensures(
            SenderAgent::plan_retransmit,
            (agent, idx, state, term_id, term_offset, length),
            r,
        ),
        i32::MIN <= term_id - agent.publications@[idx as int].initial_term_id <= i32::MAX,
        0 <= term_offset,
        ({
            let p = agent.publications@[idx as int];
            let position = (term_id - p.initial_term_id) * p.term_length + term_offset;
            let start = state.sender_position - 3 * p.term_length;
            &&& i64::MIN <= start
            &&& i64::MIN <= position - start <= i64::MAX
            &&& i64::MIN <= state.pub_position - start <= i64::MAX
        }),
    ensures
        ({
            let p = agent.publications@[idx as int];
            let position = (term_id - p.initial_term_id) * p.term_length + term_offset;
            r is Some <==> state.sender_position - 3 * p.term_length <= position
                < state.pub_position
        }),
{
    let p = agent.publications@[idx as int];
    let position = p.position(term_id, term_offset as u32);
    assert(term_id.wrapping_sub(p.initial_term_id) == term_id - p.initial_term_id);
    assert(position == (term_id - p.initial_term_id) * p.term_length + term_offset);
    lemma_position_range(term_id, term_offset as u32, p.initial_term_id, p.term_length);
    assert((PARTITION_COUNT - 1) * p.term_length == 3 * p.term_length) by (nonlinear_arith)
        requires
            PARTITION_COUNT == 4,
    ;
}

/// Where term ids and positions have counted around, a NAK is answered by the same
/// rule: its position lies as far behind the published one as the term buffer
/// reaches, three terms behind the sender position, or nearer.
pub proof fn law_retransmission_counts_around(
    agent: &SenderAgent,
    idx: usize,
    state: PublicationState,
    term_id: i32,
    term_offset: i32,
    length: i32,
    r: Option<RetransmitPlan>,
)
    requires
        idx < agent.publications@.len(),
        call_ensures(
            SenderAgent::plan_retransmit,
            (agent, idx, state, term_id, term_offset, length),
            r,
        ),
    ensures
        ({
            let p = agent.publications@[idx as int];
            let position = (term_id.wrapping_sub(p.initial_term_id) * p.term_length + (
            term_offset as u32)) as i64;
            let start = state.sender_position.wrapping_sub((3 * p.term_length) as i64);
            r is Some <==> 0 <= position.wrapping_sub(start) < state.pub_position.wrapping_sub(
                start,
            )
        }),
{
    let p = agent.publications@[idx as int];
    assert((PARTITION_COUNT - 1) * p.term_length == 3 * p.term_length) by (nonlinear_arith)
        requires
            PARTITION_COUNT == 4,
    ;
}

/// Positions fit into 64 bits.
proof fn lemma_position_range(
    term_id: i32,
    term_offset: u32,
    initial_term_id: i32,
    term_length: u32,
)
    ensures
        i64::MIN <= term::position_of(term_id, term_offset, initial_term_id, term_length)
            <= i64::MAX,
{
    let terms = term_id.wrapping_sub(initial_term_id) as int;
    let length = term_length as int;
    assert(-0x8000_0000 * 0xFFFF_FFFF <= terms * length <= 0x7FFF_FFFF * 0xFFFF_FFFF)
        by (nonlinear_arith)
        requires
            -0x8000_0000 <= terms <= 0x7FFF_FFFF,
            0 <= length <= 0xFFFF_FFFF,
    ;
}

/// A retransmission is of the publication that was asked for, goes where its data
/// goes, begins where the NAK says, and is of the length asked for but for one
/// datagram at most.
pub proof fn law_retransmission_is_what_was_asked_for(
    agent: &SenderAgent,
    idx: usize,
    state: PublicationState,
    term_id: i32,
    term_offset: i32,
    length: i32,
    plan: RetransmitPlan,
)
    requires
        idx < agent.publications@.len(),
        call_ensures(
            SenderAgent::plan_retransmit,
            (agent, idx, state, term_id, term_offset, length),
            Some(plan),
        ),
    ensures
        ({
            let p = agent.publications@[idx as int];
            &&& plan.publication == idx
            &&& plan.endpoint_idx == p.endpoint_idx
            &&& plan.dest_addr == p.dest_addr
            &&& plan.term_id == term_id
            &&& plan.term_offset == term_offset as u32
            &&& 0 <= term_offset ==> plan.term_offset == term_offset
            &&& plan.limit <= p.mtu
            &&& 0 <= length ==> plan.limit <= length
            &&& 0 <= length ==> plan.limit == length || plan.limit == p.mtu
            &&& length < 0 ==> plan.limit == length as u32 || plan.limit == p.mtu
            &&& length < 0 && p.mtu <= i32::MAX ==> plan.limit == p.mtu
        }),
{
    lemma_bits_of_i32(term_offset);
    lemma_bits_of_i32(length);
}

proof fn lemma_bits_of_i32(x: i32)
    ensures
        0 <= x ==> x as u32 == x,
        x < 0 ==> x as u32 > i32::MAX,
{
    assert(x < 0 ==> (x as u32) > 0x7FFF_FFFFu32) by (bit_vector);
}

/// A status message reaches exactly the publications of its session and stream.
/// They need no more setup, and may send up to the receiver's position and its
/// window where that is ahead of what they may already; nothing else changes.
pub proof fn law_status_message_opens_the_window(
    before: SenderAgent,
    after: SenderAgent,
    session_id: i32,
    stream_id: i32,
    consumption_term_id: i32,
    consumption_term_offset: i32,
    receiver_window: i32,
    i: int,
)
    requires
        exists|agent: &mut SenderAgent|
            *agent == before && *final(agent) == after && #[trigger] call_ensures(
                SenderAgent::on_status_message,
                (
                    agent,
                    session_id,
                    stream_id,
                    consumption_term_id,
                    consumption_term_offset,
                    receiver_window,
                ),
                (),
            ),
        0 <= i < before.publications@.len(),
    ensures
        ({
            let p = before.publications@[i];
            let q = after.publications@[i];
            let allowed = (consumption_term_id - p.initial_term_id) * p.term_length
                + consumption_term_offset + receiver_window;
            &&& after.publications@.len() == before.publications@.len()
            &&& p.session_id != session_id || p.stream_id != stream_id ==> q == p
            &&& p.session_id == session_id && p.stream_id == stream_id ==> {
                &&& !q.needs_setup
                &&& q == (PublicationEntry {
                    needs_setup: q.needs_setup,
                    sender_limit: q.sender_limit,
                    ..p
                })
                &&& i32::MIN <= consumption_term_id - p.initial_term_id <= i32::MAX && 0
                    <= consumption_term_offset && i64::MIN <= allowed <= i64::MAX && i64::MIN
                    <= allowed - p.sender_limit <= i64::MAX ==> {
                    &&& p.sender_limit < allowed < p.sender_limit + 0x3FFF_FFFF_FFFF_FFFF
                        ==> q.sender_limit == allowed
                    &&& !(p.sender_limit < allowed < p.sender_limit + 0x3FFF_FFFF_FFFF_FFFF)
                        ==> q.sender_limit == p.sender_limit
                }
                &&& ({
                    let position = consumption_term_id.wrapping_sub(p.initial_term_id)
                        * p.term_length + (consumption_term_offset as u32);
                    let proposed = (position as i64).wrapping_add(receiver_window as i64);
                    let ahead = proposed.wrapping_sub(p.sender_limit);
                    q.sender_limit == if 0 < ahead < 0x3FFF_FFFF_FFFF_FFFF {
                        proposed
                    } else {
                        p.sender_limit
                    }
                })
            }
        }),
        after.endpoint_count == before.endpoint_count,
        after.duty_cycle_ratio == before.duty_cycle_ratio,
        after.duty_cycle_counter == before.duty_cycle_counter,
        after.round_robin_index == before.round_robin_index,
        after.heartbeat_interval_ns == before.heartbeat_interval_ns,
        after.rttm_interval_ns == before.rttm_interval_ns,
{
    let p = before.publications@[i];
    lemma_bits_of_i32(consumption_term_offset);
    lemma_position_range(
        consumption_term_id,
        consumption_term_offset as u32,
        p.initial_term_id,
        p.term_length,
    );
}

/// The reply to a measurement reaches exactly the publications of its session and
/// stream. The time since the request, less what the receiver took, counts in full
/// when it is the first, and else by one eighth beside seven eighths of what was
/// measured before. Times that are not positive or absurdly large do not count.
pub proof fn law_rtt_reply_is_smoothed_in(
    before: SenderAgent,
    after: SenderAgent,
    now_ns: i64,
    session_id: i32,
    stream_id: i32,
    echo_timestamp: i64,
    reception_delta: i64,
    i: int,
)
    requires
        exists|agent: &mut SenderAgent|
            *agent == before && *final(agent) == after && #[trigger] call_ensures(
                SenderAgent::on_rttm_reply,
                (agent, now_ns, session_id, stream_id, echo_timestamp, reception_delta),
                (),
            ),
        0 <= i < before.publications@.len(),
    ensures
        ({
            let p = before.publications@[i];
            let q = after.publications@[i];
            let sample = now_ns.wrapping_sub(echo_timestamp).wrapping_sub(reception_delta) as int;
            &&& i64::MIN <= now_ns - echo_timestamp <= i64::MAX && i64::MIN <= now_ns
                - echo_timestamp - reception_delta <= i64::MAX ==> sample == now_ns
                - echo_timestamp - reception_delta
            &&& after.publications@.len() == before.publications@.len()
            &&& p.session_id != session_id || p.stream_id != stream_id ==> q == p
            &&& p.session_id == session_id && p.stream_id == stream_id ==> {
                &&& q == (PublicationEntry { last_rtt_ns: q.last_rtt_ns, ..p })
                &&& sample <= 0 || sample >= 0x3FFF_FFFF_FFFF_FFFF ==> q.last_rtt_ns == p.last_rtt_ns
                &&& 0 < sample < 0x3FFF_FFFF_FFFF_FFFF && p.last_rtt_ns == 0 ==> q.last_rtt_ns
                    == sample
                &&& 0 < sample < 0x3FFF_FFFF_FFFF_FFFF && p.last_rtt_ns != 0 ==> {
                    &&& -8 < 8 * q.last_rtt_ns - (7 * p.last_rtt_ns + sample) < 8
                    &&& q.last_rtt_ns - p.last_rtt_ns == sample / 8 - p.last_rtt_ns as int / 8
                }
            }
        }),
        after.endpoint_count == before.endpoint_count,
        after.duty_cycle_ratio == before.duty_cycle_ratio,
        after.duty_cycle_counter == before.duty_cycle_counter,
        after.round_robin_index == before.round_robin_index,
        after.heartbeat_interval_ns == before.heartbeat_interval_ns,
        after.rttm_interval_ns == before.rttm_interval_ns,
{
}

/// A publication starts with what it was asked for, waits for its receiver, may
/// send one term before it hears of it, and has sent and measured nothing.
pub proof fn law_new_publication_waits_for_its_receiver(
    kind: PublicationKind,
    endpoint_idx: usize,
    session_id: i32,
    stream_id: i32,
    initial_term_id: i32,
    term_length: u32,
    mtu: u32,
    dest_addr: Option<SockaddrStorage>,
    r: PublicationEntry,
)
    requires
        call_ensures(
            PublicationEntry::new,
            (
                kind,
                endpoint_idx,
                session_id,
                stream_id,
                initial_term_id,
                term_length,
                mtu,
                dest_addr,
            ),
            r,
        ),
    ensures
        r.kind == kind,
        r.endpoint_idx == endpoint_idx,
        r.session_id == session_id,
        r.stream_id == stream_id,
        r.initial_term_id == initial_term_id,
        r.term_length == term_length,
        r.mtu == mtu,
        r.dest_addr == dest_addr,
        r.needs_setup,
        r.sender_limit == term_length,
        r.time_of_last_send_ns == 0,
        r.time_of_last_setup_ns == 0,
        r.time_of_last_rttm_ns == 0,
        r.last_rtt_ns == 0,
{
}

/// The entry is that of a new publication with these parameters.
pub open spec fn is_new(
    entry: PublicationEntry,
    endpoint_idx: usize,
    session_id: i32,
    stream_id: i32,
    initial_term_id: i32,
    term_length: u32,
    mtu: u32,
) -> bool {
    &&& entry.endpoint_idx == endpoint_idx
    &&& entry.session_id == session_id
    &&& entry.stream_id == stream_id
    &&& entry.initial_term_id == initial_term_id
    &&& entry.term_length == term_length
    &&& entry.mtu == mtu
    &&& entry.needs_setup
    &&& entry.sender_limit == term_length
    &&& entry.time_of_last_send_ns == 0
    &&& entry.time_of_last_setup_ns == 0
    &&& entry.time_of_last_rttm_ns == 0
    &&& entry.last_rtt_ns == 0
}

/// A publication whose log could be made comes last, under the number that is
/// returned; without a log nothing changes.
pub proof fn law_added_publication_comes_last(
    before: SenderAgent,
    after: SenderAgent,
    log_created: bool,
    endpoint_idx: usize,
    session_id: i32,
    stream_id: i32,
    initial_term_id: i32,
    term_length: u32,
    mtu: u32,
    r: Option<usize>,
)
    requires
        exists|agent: &mut SenderAgent|
            *agent == before && *final(agent) == after && #[trigger] call_ensures(
                SenderAgent::add_publication,
                (
                    agent,
                    log_created,
                    endpoint_idx,
                    session_id,
                    stream_id,
                    initial_term_id,
                    term_length,
                    mtu,
                ),
                r,
            ),
        before.publications@.len() <= usize::MAX,
    ensures
        r is Some <==> log_created,
        !log_created ==> after.publications@ == before.publications@,
        log_created ==> {
            let n = before.publications@.len() as int;
            &&& r->0 == n
            &&& after.publications@.len() == n + 1
            &&& forall|k: int|
                0 <= k < n ==> #[trigger] after.publications@[k] == before.publications@[k]
            &&& after.publications@[n].kind is Local
            &&& after.publications@[n].dest_addr is None
            &&& is_new(
                after.publications@[n],
                endpoint_idx,
                session_id,
                stream_id,
                initial_term_id,
                term_length,
                mtu,
            )
        },
        after.endpoint_count == before.endpoint_count,
        after.duty_cycle_counter == before.duty_cycle_counter,
        after.round_robin_index == before.round_robin_index,
{
}

/// The same holds of a publication that another thread offers to.
pub proof fn law_added_concurrent_publication_comes_last(
    before: SenderAgent,
    after: SenderAgent,
    log_created: bool,
    endpoint_idx: usize,
    session_id: i32,
    stream_id: i32,
    initial_term_id: i32,
    term_length: u32,
    mtu: u32,
    r: Option<usize>,
)
    requires
        exists|agent: &mut SenderAgent|
            *agent == before && *final(agent) == after && #[trigger] call_ensures(
                SenderAgent::add_concurrent_publication,
                (
                    agent,
                    log_created,
                    endpoint_idx,
                    session_id,
                    stream_id,
                    initial_term_id,
                    term_length,
                    mtu,
                ),
                r,
            ),
        before.publications@.len() <= usize::MAX,
    ensures
        r is Some <==> log_created,
        !log_created ==> after.publications@ == before.publications@,
        log_created ==> {
            let n = before.publications@.len() as int;
            &&& r->0 == n
            &&& after.publications@.len() == n + 1
            &&& forall|k: int|
                0 <= k < n ==> #[trigger] after.publications@[k] == before.publications@[k]
            &&& after.publications@[n].kind is Concurrent
            &&& after.publications@[n].dest_addr is None
            &&& is_new(
                after.publications@[n],
                endpoint_idx,
                session_id,
                stream_id,
                initial_term_id,
                term_length,
                mtu,
            )
        },
        after.endpoint_count == before.endpoint_count,
        after.duty_cycle_counter == before.duty_cycle_counter,
        after.round_robin_index == before.round_robin_index,
{
}

/// A publication that came through the bridge comes last too, with an endpoint of
/// its own behind those that there were, and with the address it came with.
pub proof fn law_bridged_publication_has_its_own_endpoint(
    before: SenderAgent,
    after: SenderAgent,
    registered: bool,
    session_id: i32,
    stream_id: i32,
    initial_term_id: i32,
    term_length: u32,
    mtu: u32,
    dest_addr: SockaddrStorage,
    r: Option<usize>,
)
    requires
        exists|agent: &mut SenderAgent|
            *agent == before && *final(agent) == after && #[trigger] call_ensures(
                SenderAgent::add_bridged_publication,
                (
                    agent,
                    registered,
                    session_id,
                    stream_id,
                    initial_term_id,
                    term_length,
                    mtu,
                    dest_addr,
                ),
                r,
            ),
        before.publications@.len() <= usize::MAX,
    ensures
        r is Some <==> registered,
        !registered ==> after == before,
        registered ==> {
            let n = before.publications@.len() as int;
            &&& r->0 == n
            &&& after.endpoint_count == before.endpoint_count + 1
            &&& after.publications@.len() == n + 1
            &&& forall|k: int|
                0 <= k < n ==> #[trigger] after.publications@[k] == before.publications@[k]
            &&& after.publications@[n].kind is Concurrent
            &&& after.publications@[n].dest_addr == Some(dest_addr)
            &&& is_new(
                after.publications@[n],
                before.endpoint_count,
                session_id,
                stream_id,
                initial_term_id,
                term_length,
                mtu,
            )
        },
{
}

/// A NAK finds the first publication of its session and stream, if there is one.
pub proof fn law_first_matching_publication_is_found(
    agent: &SenderAgent,
    session_id: i32,
    stream_id: i32,
    r: Option<usize>,
)
    requires
        call_ensures(SenderAgent::find_publication, (agent, session_id, stream_id), r),
    ensures
        r matches Some(i) ==> {
            &&& i < agent.publications@.len()
            &&& agent.publications@[i as int].session_id == session_id
            &&& agent.publications@[i as int].stream_id == stream_id
        },
        forall|k: int|
            0 <= k < agent.publications@.len() && (#[trigger] agent.publications@[k]).session_id
                == session_id && agent.publications@[k].stream_id == stream_id ==> r is Some && r->0
                <= k,
{
    assert forall|k: int|
        0 <= k < agent.publications@.len() && (#[trigger] agent.publications@[k]).session_id
            == session_id && agent.publications@[k].stream_id == stream_id implies r is Some && r->0
        <= k by {
        assert(agent.publications@[k].has_key(session_id, stream_id));
    }
}

/// A round starts with the publication behind the one that the last round started
/// with, or with the first again, and has as many turns as there are publications.
pub proof fn law_round_starts_in_turn(
    before: SenderAgent,
    after: SenderAgent,
    r: Option<SendCycle>,
)
    requires
        exists|agent: &mut SenderAgent|
            *agent == before && *final(agent) == after && #[trigger] call_ensures(
                SenderAgent::begin_send,
                (agent,),
                r,
            ),
        before.publications@.len() <= usize::MAX,
    ensures
        r is None <==> before.publications@.len() == 0,
        r matches Some(cycle) ==> {
            &&& cycle.len == before.publications@.len()
            &&& cycle.visited == 0
            &&& cycle.total_bytes == 0
            &&& cycle.idx == cycle.start
            &&& cycle.start < cycle.len
            &&& before.round_robin_index < cycle.len ==> cycle.start == before.round_robin_index
            &&& before.round_robin_index >= cycle.len ==> cycle.start == 0
            &&& after.round_robin_index == cycle.start + 1
        },
        after.publications@ == before.publications@,
        after.duty_cycle_counter == before.duty_cycle_counter,
{
}

/// A turn ends with the bytes added up, the time of sending noted if there were
/// any, and the next publication in line, the first behind the last.
pub proof fn law_turn_passes_on(
    before: SenderAgent,
    after: SenderAgent,
    cycle: SendCycle,
    cycle_after: SendCycle,
    scanned: u32,
    now_ns: i64,
)
    requires
        cycle.wf(),
        cycle.visited < cycle.len,
        cycle.len == before.publications@.len(),
        exists|agent: &mut SenderAgent, c: &mut SendCycle|
            *agent == before && *final(agent) == after && *c == cycle && *final(c) == cycle_after
                && #[trigger] call_ensures(
                SenderAgent::on_scanned,
                (agent, c, scanned, now_ns),
                (),
            ),
    ensures
        cycle_after.visited == cycle.visited + 1,
        cycle.idx + 1 < cycle.len ==> cycle_after.idx == cycle.idx + 1,
        cycle.idx + 1 >= cycle.len ==> cycle_after.idx == 0,
        cycle_after.start == cycle.start,
        cycle_after.len == cycle.len,
        scanned <= i32::MAX && cycle.total_bytes + scanned <= i32::MAX ==> cycle_after.total_bytes
            == cycle.total_bytes + scanned,
        after.publications@.len() == before.publications@.len(),
        scanned == 0 ==> after.publications@ == before.publications@,
        scanned > 0 ==> after.publications@[cycle.idx as int] == (PublicationEntry {
            time_of_last_send_ns: now_ns,
            ..before.publications@[cycle.idx as int]
        }),
        forall|k: int|
            0 <= k < before.publications@.len() && k != cycle.idx ==> #[trigger] after.publications@[k]
                == before.publications@[k],
{
    lemma_bits_of_u32(scanned);
}

/// The control side is polled at once when nothing was sent, and else after as many
/// rounds as the ratio says: a poll starts the count anew, a round without one
/// counts.
pub proof fn law_control_side_gets_its_turn(
    before: SenderAgent,
    after: SenderAgent,
    bytes_sent: i32,
    r: bool,
)
    requires
        exists|agent: &mut SenderAgent|
            *agent == before && *final(agent) == after && #[trigger] call_ensures(
                SenderAgent::poll_control_due,
                (agent, bytes_sent),
                r,
            ),
    ensures
        bytes_sent == 0 ==> r,
        bytes_sent != 0 ==> (r <==> before.duty_cycle_counter >= before.duty_cycle_ratio),
        r ==> after.duty_cycle_counter == 0,
        !r ==> after.duty_cycle_counter == before.duty_cycle_counter + 1,
        !r ==> after.duty_cycle_counter <= before.duty_cycle_ratio,
        after.publications@ == before.publications@,
        after.duty_cycle_ratio == before.duty_cycle_ratio,
        after.round_robin_index == before.round_robin_index,
{
}

/// Every scanned frame goes out but padding, whose type, zero, stands in the bytes
/// at 6 and 7.
pub proof fn law_only_padding_is_held_back(frame: &[u8], r: bool)
    requires
        call_ensures(is_transmitted, (frame,), r),
    ensures
        frame@.len() < 8 ==> r,
        frame@.len() >= 8 ==> (r <==> !(frame@[6] == 0 && frame@[7] == 0)),
{
}

/// A sender starts with no publication and no endpoint, its turns at the first, and
/// the intervals of its context, wherever that context is in range.
pub proof fn law_new_sender_runs_as_its_context_says(
    ctx: &DriverContext,
    r: Result<SenderAgent, ContextValidationError>,
    checked: Result<(), ContextValidationError>,
)
    requires
        call_ensures(SenderAgent::new, (ctx,), r),
        call_ensures(DriverContext::validate, (ctx,), checked),
    ensures
        r is Ok <==> checked is Ok,
        r matches Ok(agent) ==> {
            &&& agent.publications@.len() == 0
            &&& agent.endpoint_count == 0
            &&& agent.duty_cycle_ratio == ctx.send_duty_cycle_ratio
            &&& agent.duty_cycle_counter == 0
            &&& agent.round_robin_index == 0
            &&& agent.heartbeat_interval_ns == ctx.heartbeat_interval_ns
            &&& agent.rttm_interval_ns == ctx.rttm_interval_ns
        },
{
}

/// Endpoints are numbered in the order in which they come.
pub proof fn law_endpoints_are_numbered(before: SenderAgent, after: SenderAgent, r: usize)
    requires
        exists|agent: &mut SenderAgent|
            *agent == before && *final(agent) == after && #[trigger] call_ensures(
                SenderAgent::add_endpoint,
                (agent,),
                r,
            ),
    ensures
        r == before.endpoint_count,
        after.endpoint_count == before.endpoint_count + 1,
        after.publications == before.publications,
{
}

/// A publication's limit moves up to a receiver's position and window where that is
/// ahead by less than a quarter of the range of positions, and stays otherwise;
/// term ids and positions count around. Nothing else changes.
pub proof fn law_limit_follows_the_receiver(
    before: PublicationEntry,
    after: PublicationEntry,
    consumption_term_id: i32,
    consumption_term_offset: i32,
    receiver_window: i32,
)
    requires
        exists|entry: &mut PublicationEntry|
            *entry == before && *final(entry) == after && #[trigger] call_ensures(
                PublicationEntry::update_sender_limit_from_sm,
                (entry, consumption_term_id, consumption_term_offset, receiver_window),
                (),
            ),
    ensures
        ({
            let position = consumption_term_id.wrapping_sub(before.initial_term_id)
                * before.term_length + (consumption_term_offset as u32);
            let proposed = (position as i64).wrapping_add(receiver_window as i64);
            let ahead = proposed.wrapping_sub(before.sender_limit);
            &&& 0 < ahead < 0x3FFF_FFFF_FFFF_FFFF ==> after.sender_limit == proposed
            &&& !(0 < ahead < 0x3FFF_FFFF_FFFF_FFFF) ==> after.sender_limit == before.sender_limit
        }),
        after == (PublicationEntry { sender_limit: after.sender_limit, ..before }),
{
    lemma_position_range(
        consumption_term_id,
        consumption_term_offset as u32,
        before.initial_term_id,
        before.term_length,
    );
}

/// The first sample counts in full and each later one by an eighth, beside seven
/// eighths of what was measured before. A sample that is not positive or absurdly
/// large does not count. Nothing else changes.
pub proof fn law_samples_are_smoothed(
    before: PublicationEntry,
    after: PublicationEntry,
    sample_ns: i64,
)
    requires
        exists|entry: &mut PublicationEntry|
            *entry == before && *final(entry) == after && #[trigger] call_ensures(
                PublicationEntry::update_rtt,
                (entry, sample_ns),
                (),
            ),
    ensures
        after == (PublicationEntry { last_rtt_ns: after.last_rtt_ns, ..before }),
        sample_ns <= 0 || sample_ns >= 0x3FFF_FFFF_FFFF_FFFF ==> after.last_rtt_ns
            == before.last_rtt_ns,
        0 < sample_ns < 0x3FFF_FFFF_FFFF_FFFF && before.last_rtt_ns == 0 ==> after.last_rtt_ns
            == sample_ns,
        0 < sample_ns < 0x3FFF_FFFF_FFFF_FFFF && before.last_rtt_ns != 0 ==> after.last_rtt_ns
            - before.last_rtt_ns == sample_ns as int / 8 - before.last_rtt_ns as int / 8,
{
}

/// A publication tells its limit, its round trip time, when it was last measured,
/// and the position of a place in its log.
pub proof fn law_publication_entry_tells_its_state(
    entry: &PublicationEntry,
    sender_limit: i64,
    last_rtt_ns: i64,
    time_of_last_rttm_ns: i64,
    term_id: i32,
    term_offset: u32,
    position: i64,
)
    requires
        call_ensures(PublicationEntry::sender_limit, (entry,), sender_limit),
        call_ensures(PublicationEntry::last_rtt_ns, (entry,), last_rtt_ns),
        call_ensures(PublicationEntry::time_of_last_rttm_ns, (entry,), time_of_last_rttm_ns),
        call_ensures(PublicationEntry::compute_position, (entry, term_id, term_offset), position),
    ensures
        sender_limit == entry.sender_limit,
        last_rtt_ns == entry.last_rtt_ns,
        time_of_last_rttm_ns == entry.time_of_last_rttm_ns,
        position == term_id.wrapping_sub(entry.initial_term_id) * entry.term_length + term_offset,
{
}

/// The time of a measurement is noted and nothing else changes.
pub proof fn law_measurement_is_noted(
    before: PublicationEntry,
    after: PublicationEntry,
    val: i64,
)
    requires
        exists|entry: &mut PublicationEntry|
            *entry == before && *final(entry) == after && #[trigger] call_ensures(
                PublicationEntry::set_time_of_last_rttm_ns,
                (entry, val),
                (),
            ),
    ensures
        after.time_of_last_rttm_ns == val,
        after == (PublicationEntry { time_of_last_rttm_ns: val, ..before }),
{
}

/// The sender tells of each publication what it may send, whether it waits for its
/// receiver and its round trip time, and nothing of one that is not there.
pub proof fn law_sender_tells_of_its_publications(
    agent: &SenderAgent,
    idx: usize,
    limit: Option<i64>,
    waits: Option<bool>,
    rtt: Option<i64>,
)
    requires
        call_ensures(SenderAgent::publication_sender_limit, (agent, idx), limit),
        call_ensures(SenderAgent::publication_needs_setup, (agent, idx), waits),
        call_ensures(SenderAgent::publication_last_rtt_ns, (agent, idx), rtt),
    ensures
        idx >= agent.publications@.len() ==> limit is None && waits is None && rtt is None,
        idx < agent.publications@.len() ==> {
            let p = agent.publications@[idx as int];
            limit == Some(p.sender_limit) && waits == Some(p.needs_setup) && rtt == Some(
                p.last_rtt_ns,
            )
        },
{
}

/// A publication of the sender's own thread is given out for changes, and what
/// becomes of it is what it is then. Of another, or beyond the last, nothing is
/// given out.
pub proof fn law_own_publications_are_given_out(
    before: SenderAgent,
    after: SenderAgent,
    idx: usize,
    given: Option<PublicationEntry>,
    changed: PublicationEntry,
)
    requires
        exists|agent: &mut SenderAgent, r: Option<&mut PublicationEntry>|
            *agent == before && *final(agent) == after && (r is Some <==> given is Some) && (r
                is Some ==> *r->0 == given->0 && *final(r->0) == changed)
                && #[trigger] call_ensures(SenderAgent::publication_mut, (agent, idx), r),
    ensures
        given is Some <==> idx < before.publications@.len() && before.publications@[idx as int].kind
            == PublicationKind::Local,
        given is None ==> after == before,
        given matches Some(entry) ==> {
            &&& entry == before.publications@[idx as int]
            &&& after.publications@ == before.publications@.update(idx as int, changed)
            &&& after.endpoint_count == before.endpoint_count
            &&& after.round_robin_index == before.round_robin_index
        },
{
}

/// Name of the agent.
pub proof fn law_sender_is_known_by_its_name(agent: &SenderAgent, r: &str)
    requires
        call_ensures(SenderAgent::name, (agent,), r),
    ensures
        r@ == "aeron-sender"@,
{
}

} // verus!
