//! The driver as a whole: what its three agents, their queues and the region that
//! they share with clients begin with.

use crate::agent::conductor::{ConductorAgent, ConductorParts, INTERNAL_QUEUE_CAPACITY};
use crate::agent::idle_strategy::IdleStrategy;
use crate::agent::receiver::{PendingNak, ReceiverAgent};
use crate::agent::runner;
use crate::agent::sender::SenderAgent;
use crate::agent::AgentError;
use crate::client::aeron;
use crate::client::aeron::{Aeron, ClientConfig, CLIENT_ID_MASK};
use crate::client::ClientError;
use crate::cnc::cnc_file;
use crate::cnc::cnc_file::{CncError, DriverCnc, CNC_HEADER_LENGTH};
use crate::cnc::command::CMD_CLIENT_KEEPALIVE;
use crate::cnc::position;
use crate::cnc::ring_buffer::{RingBufferError, TRAILER_LENGTH};
use crate::context::{ContextValidationError, DriverContext};
use crate::wire;
use vstd::arithmetic::power2;
use vstd::prelude::*;

verus! {

/// Capacity of the ring buffer that commands go through.
pub const DEFAULT_TO_DRIVER_CAPACITY: usize = 65536;

/// Capacity of the buffer that responses go through.
pub const DEFAULT_TO_CLIENTS_CAPACITY: usize = 65536;

/// Why a driver was not launched.
#[derive(Debug, Clone, Copy, PartialEq, Eq, Structural)]
pub enum LaunchError {
    /// The configuration is refused.
    Context(ContextValidationError),
    /// The shared region cannot be laid out.
    Cnc(CncError),
    /// The agents' queues cannot be made.
    Queue(RingBufferError),
}

impl LaunchError {
    /// Text of the error.
    pub open spec fn text(self) -> Seq<char> {
        match self {
            LaunchError::Context(e) => e.text(),
            LaunchError::Cnc(e) => e.text(),
            LaunchError::Queue(e) => e.text(),
        }
    }

    /// Text of the error.
    pub fn to_string(&self) -> (r: String)
        ensures
            r@ == self.text(),
    {
        match self {
            LaunchError::Context(e) => e.to_string(),
            LaunchError::Cnc(e) => e.to_string(),
            LaunchError::Queue(e) => e.to_string(),
        }
    }
}

/// What the driver's agents begin with.
#[derive(Debug)]
pub struct DriverParts {
    /// The region that driver and clients share.
    pub region: Vec<u8>,
    pub conductor: ConductorParts,
    pub sender: SenderAgent,
    pub receiver: ReceiverAgent,
    pub idle_strategy: IdleStrategy,
}

/// A launched driver, as its clients see it.
#[derive(Debug, Clone, Copy)]
pub struct MediaDriver {
    /// Length of the region that driver and clients share.
    pub cnc_length: usize,
    pub config: ClientConfig,
}

impl MediaDriver {
    /// What clients are told of a configuration.
    pub open spec fn config_of(ctx: DriverContext) -> ClientConfig {
        ClientConfig {
            socket_rcvbuf: ctx.socket_rcvbuf,
            socket_sndbuf: ctx.socket_sndbuf,
            multicast_ttl: ctx.multicast_ttl,
            term_length: ctx.term_buffer_length,
            mtu: ctx.mtu_length as u32,
        }
    }

    /// The region of a driver that was just launched.
    pub open spec fn first_region(pid: i32, now_ms: i64) -> Seq<u8> {
        cnc_file::fresh_region(
            cnc_file::region_length(
                DEFAULT_TO_DRIVER_CAPACITY as int,
                DEFAULT_TO_CLIENTS_CAPACITY as int,
            ) as nat,
            pid,
            DEFAULT_TO_DRIVER_CAPACITY as int,
            DEFAULT_TO_CLIENTS_CAPACITY as int,
            now_ms,
        )
    }

    /// Makes all that a driver begins with.
    pub fn launch(ctx: &DriverContext, receiver_id: i64, pid: i32, now_ms: i64) -> (r: Result<
        (MediaDriver, DriverParts),
        LaunchError,
    >)
        ensures
            r is Ok <==> ctx.valid(),
            match r {
                Ok((driver, parts)) => {
                    &&& driver.cnc_length == parts.region@.len()
                    &&& driver.config == Self::config_of(*ctx)
                    &&& driver.config.mtu == ctx.mtu_length
                    &&& parts.region@ == Self::first_region(pid, now_ms)
                    &&& parts.conductor.conductor.channels.cnc.fits(parts.region@)
                    &&& parts.conductor.conductor.channels.cnc.to_driver_capacity
                        == DEFAULT_TO_DRIVER_CAPACITY
                    &&& parts.conductor.conductor.channels.cnc.to_clients_capacity
                        == DEFAULT_TO_CLIENTS_CAPACITY
                    &&& parts.conductor.conductor.fits(
                        parts.region@,
                        parts.conductor.to_sender_buf@,
                        parts.conductor.to_receiver_buf@,
                    )
                    &&& parts.conductor.conductor.next_registration_id == 1
                    &&& parts.conductor.conductor.next_session_id == 1
                    &&& parts.conductor.conductor.client_count == 0
                    &&& parts.conductor.conductor.driver_timeout_ns == ctx.driver_timeout_ns
                    &&& parts.conductor.sender_queue.rb
                        == parts.conductor.conductor.channels.to_sender
                    &&& parts.conductor.receiver_queue.rb
                        == parts.conductor.conductor.channels.to_receiver
                    &&& parts.conductor.conductor.channels.to_sender.capacity
                        == INTERNAL_QUEUE_CAPACITY
                    &&& parts.conductor.conductor.channels.to_receiver.capacity
                        == INTERNAL_QUEUE_CAPACITY
                    &&& parts.conductor.to_sender_buf@ == wire::zeros(
                        (INTERNAL_QUEUE_CAPACITY + TRAILER_LENGTH) as nat,
                    )
                    &&& parts.conductor.to_receiver_buf@ == wire::zeros(
                        (INTERNAL_QUEUE_CAPACITY + TRAILER_LENGTH) as nat,
                    )
                    &&& parts.sender.publications@.len() == 0
                    &&& parts.sender.endpoint_count == 0
                    &&& parts.sender.duty_cycle_ratio == ctx.send_duty_cycle_ratio
                    &&& parts.sender.duty_cycle_counter == 0
                    &&& parts.sender.round_robin_index == 0
                    &&& parts.sender.heartbeat_interval_ns == ctx.heartbeat_interval_ns
                    &&& parts.sender.rttm_interval_ns == ctx.rttm_interval_ns
                    &&& parts.receiver.sound()
                    &&& parts.receiver.image_count == 0
                    &&& parts.receiver.endpoint_count == 0
                    &&& parts.receiver.max_images == ctx.max_receiver_images
                    &&& parts.receiver.sm_interval_ns == ctx.sm_interval_ns
                    &&& parts.receiver.nak_delay_ns == ctx.nak_delay_ns
                    &&& parts.receiver.nak_queue@ == Seq::<PendingNak>::empty()
                    &&& parts.receiver.default_receiver_window == ctx.mtu_length * 32
                    &&& parts.receiver.receiver_window == ctx.receiver_window
                    &&& parts.receiver.send_sm_on_data == ctx.send_sm_on_data
                    &&& parts.receiver.receiver_id == receiver_id
                    &&& parts.idle_strategy == (IdleStrategy::Backoff {
                        max_spins: ctx.idle_strategy_max_spins,
                        max_yields: ctx.idle_strategy_max_yields,
                        min_park_ns: ctx.idle_strategy_min_park_ns,
                        max_park_ns: ctx.idle_strategy_max_park_ns,
                    })
                },
                Err(e) => {
                    &&& e is Context
                    &&& ctx.violates(e->Context_0)
                    &&& forall|other: ContextValidationError|
                        DriverContext::rank(other) < DriverContext::rank(e->Context_0)
                            ==> !#[trigger] ctx.violates(other)
                },
            },
    {
        match ctx.validate() {
            Ok(()) => {},
            Err(e) => {
                return Err(LaunchError::Context(e));
            },
        }
        assert(!ctx.violates(ContextValidationError::MtuOutOfRange));
        proof {
            lemma_default_capacity();
        }
        let (region, cnc) = match DriverCnc::create_anonymous(
            DEFAULT_TO_DRIVER_CAPACITY,
            DEFAULT_TO_CLIENTS_CAPACITY,
            pid,
            now_ms,
        ) {
            Ok(pair) => pair,
            Err(e) => {
                return Err(LaunchError::Cnc(e));
            },
        };
        let cnc_length: usize = cnc.length();
        let conductor = match ConductorAgent::new(cnc, ctx.driver_timeout_ns) {
            Ok(parts) => parts,
            Err(e) => {
                return Err(LaunchError::Queue(e));
            },
        };
        let sender = match SenderAgent::new(ctx) {
            Ok(agent) => agent,
            Err(e) => {
                return Err(LaunchError::Context(e));
            },
        };
        let receiver = match ReceiverAgent::new(ctx, receiver_id) {
            Ok(agent) => agent,
            Err(e) => {
                return Err(LaunchError::Context(e));
            },
        };
        let config = ClientConfig {
            socket_rcvbuf: ctx.socket_rcvbuf,
            socket_sndbuf: ctx.socket_sndbuf,
            multicast_ttl: ctx.multicast_ttl,
            term_length: ctx.term_buffer_length,
            mtu: ctx.mtu_length as u32,
        };
        let driver = MediaDriver { cnc_length, config };
        let parts = DriverParts {
            region,
            conductor,
            sender,
            receiver,
            idle_strategy: ctx.idle_strategy(),
        };
        Ok((driver, parts))
    }

    /// Connects a client to the driver.
    pub fn connect(&self, region: &mut [u8], now_ms: i64) -> (r: Result<Aeron, ClientError>)
        requires
            old(region)@.len() == self.cnc_length,
            self.cnc_length >= CNC_HEADER_LENGTH,
        ensures
            r is Ok <==> Aeron::connectable(old(region)@, now_ms),
            match r {
                Ok(client) => {
                    &&& client.cnc.fits(old(region)@)
                    &&& client.cnc.to_driver.capacity == cnc_file::to_driver_capacity_of(
                        old(region)@,
                    )
                    &&& client.cnc.to_clients_rx.layout.capacity
                        == cnc_file::to_clients_capacity_of(old(region)@)
                    &&& client.cnc.to_clients_rx.cursor == client.cnc.to_clients_rx.layout.tail(
                        old(region)@,
                    )
                    &&& client.cnc.to_clients_rx.lapped_count == 0
                    &&& client.client_id == (cnc_file::pid_of(old(region)@) as i64)
                        ^ CLIENT_ID_MASK
                    &&& client.next_correlation_id == 1
                    &&& client.next_session_id == 1
                    &&& client.config == self.config
                    &&& final(region)@ == client.cnc.to_driver.sent(
                        old(region)@,
                        CMD_CLIENT_KEEPALIVE,
                        aeron::client_bytes(client.client_id),
                    )
                },
                Err(e) => {
                    &&& final(region)@ == old(region)@
                    &&& e == if Aeron::opens(old(region)@) {
                        ClientError::DriverNotRunning
                    } else {
                        ClientError::CncError
                    }
                },
            },
    {
        Aeron::connect_in_process(region, now_ms, self.config)
    }

    /// What closing the driver comes to: the first error of its agents, which are
    /// joined receiver first and conductor last.
    pub fn close(
        self,
        receiver: Result<(), AgentError>,
        sender: Result<(), AgentError>,
        conductor: Result<(), AgentError>,
    ) -> (r: Result<(), AgentError>)
        ensures
            r == match receiver {
                Err(e) => Err::<(), AgentError>(e),
                Ok(_) => match sender {
                    Err(e) => Err(e),
                    Ok(_) => conductor,
                },
            },
    {
        runner::first_error(receiver, runner::first_error(sender, conductor))
    }
}

proof fn lemma_default_capacity()
    ensures
        position::valid_capacity(65536),
{
    reveal_with_fuel(power2::is_pow2, 17);
}

/// A client that connects to a driver within five seconds of its launch is let
/// in.
pub proof fn law_launched_driver_lets_clients_in(
    cnc: DriverCnc,
    pid: i32,
    launched_ms: i64,
    now_ms: i64,
)
    requires
        cnc.fits(MediaDriver::first_region(pid, launched_ms)),
        cnc.to_driver_capacity == DEFAULT_TO_DRIVER_CAPACITY,
        cnc.to_clients_capacity == DEFAULT_TO_CLIENTS_CAPACITY,
        launched_ms <= now_ms < launched_ms + 5_000,
    ensures
        Aeron::connectable(MediaDriver::first_region(pid, launched_ms), now_ms),
{
    lemma_default_capacity();
    cnc_file::law_fresh_region_opens(
        cnc_file::region_length(
            DEFAULT_TO_DRIVER_CAPACITY as int,
            DEFAULT_TO_CLIENTS_CAPACITY as int,
        ) as nat,
        pid,
        DEFAULT_TO_DRIVER_CAPACITY as int,
        DEFAULT_TO_CLIENTS_CAPACITY as int,
        launched_ms,
        cnc,
    );
}

/// A driver is launched wherever its context is in range. Its region holds two
/// buffers of 64 KiB, says so in its header together with the process id and the
/// time, and is zero behind it. Each agent gets the part of the context that
/// concerns it, and clients get its sizes.
pub proof fn law_launched_driver_runs_as_its_context_says(
    ctx: &DriverContext,
    receiver_id: i64,
    pid: i32,
    now_ms: i64,
    r: Result<(MediaDriver, DriverParts), LaunchError>,
    checked: Result<(), ContextValidationError>,
)
    requires
        call_ensures(MediaDriver::launch, (ctx, receiver_id, pid, now_ms), r),
        call_ensures(DriverContext::validate, (ctx,), checked),
    ensures
        r is Ok <==> checked is Ok,
        r matches Ok((driver, parts)) ==> {
            &&& parts.region@.len() == 256 + 65536 + 128 + 65536 + 128
            &&& driver.cnc_length == parts.region@.len()
            &&& wire::i32_at(parts.region@, 0) == 1
            &&& wire::i32_at(parts.region@, 4) == pid
            &&& wire::i32_at(parts.region@, 8) == 65536
            &&& wire::i32_at(parts.region@, 12) == 65536
            &&& wire::i64_at(parts.region@, 16) == now_ms
            &&& forall|k: int| 24 <= k < parts.region@.len() ==> #[trigger] parts.region@[k] == 0
            &&& driver.config.socket_rcvbuf == ctx.socket_rcvbuf
            &&& driver.config.socket_sndbuf == ctx.socket_sndbuf
            &&& driver.config.multicast_ttl == ctx.multicast_ttl
            &&& driver.config.term_length == ctx.term_buffer_length
            &&& driver.config.mtu == ctx.mtu_length
        },
        r matches Ok((driver, parts)) ==> {
            let conductor = parts.conductor.conductor;
            &&& conductor.channels.cnc.to_driver.offset == 256
            &&& conductor.channels.cnc.to_driver.capacity == 65536
            &&& conductor.channels.cnc.to_clients.layout.offset == 256 + 65536 + 128
            &&& conductor.channels.cnc.to_clients.layout.capacity == 65536
            &&& conductor.next_registration_id == 1
            &&& conductor.next_session_id == 1
            &&& conductor.client_count == 0
            &&& conductor.driver_timeout_ns == ctx.driver_timeout_ns
            &&& conductor.channels.to_sender.capacity == 4096
            &&& conductor.channels.to_receiver.capacity == 4096
            &&& parts.conductor.sender_queue.rb == conductor.channels.to_sender
            &&& parts.conductor.receiver_queue.rb == conductor.channels.to_receiver
            &&& parts.conductor.to_sender_buf@.len() == 4096 + 128
            &&& parts.conductor.to_receiver_buf@.len() == 4096 + 128
            &&& parts.sender.publications@.len() == 0
            &&& parts.sender.duty_cycle_ratio == ctx.send_duty_cycle_ratio
            &&& parts.sender.heartbeat_interval_ns == ctx.heartbeat_interval_ns
            &&& parts.sender.rttm_interval_ns == ctx.rttm_interval_ns
            &&& parts.receiver.image_count == 0
            &&& parts.receiver.max_images == ctx.max_receiver_images
            &&& parts.receiver.sm_interval_ns == ctx.sm_interval_ns
            &&& parts.receiver.nak_delay_ns == ctx.nak_delay_ns
            &&& parts.receiver.default_receiver_window == ctx.mtu_length * 32
            &&& parts.receiver.receiver_window == ctx.receiver_window
            &&& parts.receiver.send_sm_on_data == ctx.send_sm_on_data
            &&& parts.receiver.receiver_id == receiver_id
            &&& parts.idle_strategy is Backoff
            &&& parts.idle_strategy->max_spins == ctx.idle_strategy_max_spins
            &&& parts.idle_strategy->max_yields == ctx.idle_strategy_max_yields
            &&& parts.idle_strategy->min_park_ns == ctx.idle_strategy_min_park_ns
            &&& parts.idle_strategy->max_park_ns == ctx.idle_strategy_max_park_ns
        },
{
    if let Ok((driver, parts)) = r {
        cnc_file::lemma_fresh_header(parts.region@.len(), pid, 65536, 65536, now_ms);
    }
}

/// A client connects to a driver that was launched less than 5 seconds ago, and
/// gets the driver's sizes and an id made of its process id.
pub proof fn law_client_connects_to_a_launched_driver(
    ctx: &DriverContext,
    receiver_id: i64,
    pid: i32,
    launched_ms: i64,
    now_ms: i64,
    driver: MediaDriver,
    parts: DriverParts,
    after: Seq<u8>,
    r: Result<Aeron, ClientError>,
)
    requires
        call_ensures(
            MediaDriver::launch,
            (ctx, receiver_id, pid, launched_ms),
            Ok((driver, parts)),
        ),
        launched_ms <= now_ms < launched_ms + 5_000,
        exists|region: &mut [u8]|
            (*region)@ == parts.region@ && (*final(region))@ == after && #[trigger] call_ensures(
                MediaDriver::connect,
                (&driver, region, now_ms),
                r,
            ),
    ensures
        r is Ok,
        r->Ok_0.config == driver.config,
        r->Ok_0.client_id == (pid as i64) ^ 0x1234_5678,
        r->Ok_0.next_correlation_id == 1,
        r->Ok_0.next_session_id == 1,
        r->Ok_0.cnc.to_driver == parts.conductor.conductor.channels.cnc.to_driver,
        r->Ok_0.cnc.to_clients_rx.layout
            == parts.conductor.conductor.channels.cnc.to_clients.layout,
{
    cnc_file::lemma_fresh_header(parts.region@.len(), pid, 65536, 65536, launched_ms);
    law_launched_driver_lets_clients_in(
        parts.conductor.conductor.channels.cnc,
        pid,
        launched_ms,
        now_ms,
    );
}

/// Closing a driver gives the first error of its agents, the receiver's before the
/// sender's before the conductor's, and none where they all ended well.
pub proof fn law_close_gives_the_first_error(
    driver: MediaDriver,
    receiver: Result<(), AgentError>,
    sender: Result<(), AgentError>,
    conductor: Result<(), AgentError>,
    r: Result<(), AgentError>,
)
    requires
        call_ensures(MediaDriver::close, (driver, receiver, sender, conductor), r),
    ensures
        receiver is Err ==> r == receiver,
        receiver is Ok && sender is Err ==> r == sender,
        receiver is Ok && sender is Ok ==> r == conductor,
{
}

/// A launch that fails says what its cause says.
pub proof fn law_launch_error_says_what_its_cause_says(e: &LaunchError, r: String, cause: String)
    requires
        call_ensures(LaunchError::to_string, (e,), r),
        match *e {
            LaunchError::Context(c) => call_ensures(
                ContextValidationError::to_string,
                (&c,),
                cause,
            ),
            LaunchError::Cnc(c) => call_ensures(CncError::to_string, (&c,), cause),
            LaunchError::Queue(c) => call_ensures(RingBufferError::to_string, (&c,), cause),
        },
    ensures
        r@ == cause@,
{
}

} // verus!
