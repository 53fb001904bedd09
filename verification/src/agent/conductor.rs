//! The conductor: reads client commands, passes them on to the sender and the
//! receiver, and answers the clients.
//!
//! The conductor talks to the other two agents through ring buffers of its own,
//! so that they share no other state.

use crate::cnc::broadcast;
use crate::cnc::broadcast::BroadcastTransmitter;
use crate::cnc::cnc_file;
use crate::cnc::cnc_file::DriverCnc;
use crate::cnc::command;
use crate::cnc::command::{
    AddPublication, AddSubscription, ClientKeepalive, PublicationReady, RemovePublication,
    RemoveSubscription, SubscriptionReady, CMD_ADD_PUBLICATION, CMD_ADD_SUBSCRIPTION,
    CMD_CLIENT_KEEPALIVE, CMD_REMOVE_PUBLICATION, CMD_REMOVE_SUBSCRIPTION, RSP_PUBLICATION_READY,
    RSP_SUBSCRIPTION_READY,
};
use crate::cnc::ring_buffer;
use crate::cnc::ring_buffer::{new_heap_ring_buffer, MpscRingBuffer, RingBufferError, RingMessage};
use crate::wire;
use vstd::arithmetic::power2;
use vstd::prelude::*;
use vstd::slice::slice_subrange;

verus! {

broadcast use wire::lemma_u32_le_len;

/// Capacity of the queues to the sender and the receiver.
pub const INTERNAL_QUEUE_CAPACITY: usize = 4096;

/// Clients whose liveness is tracked at most.
pub const MAX_CLIENTS: usize = 64;

/// Bytes of a command that are looked at.
pub const MAX_CMD_LENGTH: usize = 512;

/// Term length of publications that clients ask for.
pub const DEFAULT_TERM_LENGTH: u32 = 65536;

/// MTU of publications that clients ask for.
pub const DEFAULT_MTU: u32 = 1408;

pub const INTERNAL_CMD_ADD_PUB: i32 = 1;

pub const INTERNAL_CMD_REMOVE_PUB: i32 = 2;

pub const INTERNAL_CMD_ADD_SUB: i32 = 1;

pub const INTERNAL_CMD_REMOVE_SUB: i32 = 2;

/// Command from the conductor to the sender.
#[derive(Clone, Copy, Debug, PartialEq, Eq, Structural)]
pub enum SenderCommand {
    /// Add a publication.
    AddPublication {
        correlation_id: i64,
        stream_id: i32,
        session_id: i32,
        initial_term_id: i32,
        term_length: u32,
        mtu: u32,
    },
    /// Remove a publication.
    RemovePublication { correlation_id: i64, registration_id: i64 },
}

impl SenderCommand {
    /// Message type in the queue.
    pub open spec fn msg_type(self) -> i32 {
        match self {
            SenderCommand::AddPublication { .. } => INTERNAL_CMD_ADD_PUB,
            SenderCommand::RemovePublication { .. } => INTERNAL_CMD_REMOVE_PUB,
        }
    }

    /// Payload in the queue.
    pub open spec fn bytes(self) -> Seq<u8> {
        match self {
            SenderCommand::AddPublication {
                correlation_id,
                stream_id,
                session_id,
                initial_term_id,
                term_length,
                mtu,
            } => wire::i64_le(correlation_id) + wire::i32_le(stream_id) + wire::i32_le(session_id)
                + wire::i32_le(initial_term_id) + wire::u32_le(term_length) + wire::u32_le(mtu),
            SenderCommand::RemovePublication { correlation_id, registration_id } => wire::i64_le(
                correlation_id,
            ) + wire::i64_le(registration_id),
        }
    }

    /// The command that a message of the queue stands for.
    pub open spec fn decoded(msg_type: i32, s: Seq<u8>) -> Option<SenderCommand> {
        if msg_type == INTERNAL_CMD_ADD_PUB && s.len() >= 28 {
            Some(
                SenderCommand::AddPublication {
                    correlation_id: wire::i64_at(s, 0),
                    stream_id: wire::i32_at(s, 8),
                    session_id: wire::i32_at(s, 12),
                    initial_term_id: wire::i32_at(s, 16),
                    term_length: wire::u32_at(s, 20),
                    mtu: wire::u32_at(s, 24),
                },
            )
        } else if msg_type == INTERNAL_CMD_REMOVE_PUB && s.len() >= 16 {
            Some(
                SenderCommand::RemovePublication {
                    correlation_id: wire::i64_at(s, 0),
                    registration_id: wire::i64_at(s, 8),
                },
            )
        } else {
            None
        }
    }
}

/// Command from the conductor to the receiver.
#[derive(Clone, Copy, Debug, PartialEq, Eq, Structural)]
pub enum ReceiverCommand {
    /// Add a subscription.
    AddSubscription { correlation_id: i64, stream_id: i32 },
    /// Remove a subscription.
    RemoveSubscription { correlation_id: i64, registration_id: i64 },
}

impl ReceiverCommand {
    /// Message type in the queue.
    pub open spec fn msg_type(self) -> i32 {
        match self {
            ReceiverCommand::AddSubscription { .. } => INTERNAL_CMD_ADD_SUB,
            ReceiverCommand::RemoveSubscription { .. } => INTERNAL_CMD_REMOVE_SUB,
        }
    }

    /// Payload in the queue.
    pub open spec fn bytes(self) -> Seq<u8> {
        match self {
            ReceiverCommand::AddSubscription { correlation_id, stream_id } => wire::i64_le(
                correlation_id,
            ) + wire::i32_le(stream_id),
            ReceiverCommand::RemoveSubscription { correlation_id, registration_id } => wire::i64_le(
                correlation_id,
            ) + wire::i64_le(registration_id),
        }
    }

    /// The command that a message of the queue stands for.
    pub open spec fn decoded(msg_type: i32, s: Seq<u8>) -> Option<ReceiverCommand> {
        if msg_type == INTERNAL_CMD_ADD_SUB && s.len() >= 12 {
            Some(
                ReceiverCommand::AddSubscription {
                    correlation_id: wire::i64_at(s, 0),
                    stream_id: wire::i32_at(s, 8),
                },
            )
        } else if msg_type == INTERNAL_CMD_REMOVE_SUB && s.len() >= 16 {
            Some(
                ReceiverCommand::RemoveSubscription {
                    correlation_id: wire::i64_at(s, 0),
                    registration_id: wire::i64_at(s, 8),
                },
            )
        } else {
            None
        }
    }
}

/// Encodes a command to the sender. Returns message type and payload length.
pub fn encode_sender_cmd(cmd: &SenderCommand, buf: &mut [u8; 64]) -> (r: (i32, usize))
    ensures
        final(buf)@ == wire::splice(old(buf)@, 0, cmd.bytes()),
        r.0 == cmd.msg_type(),
        r.1 == cmd.bytes().len(),
        r.1 <= 64,
{
    let r: (i32, usize) = match cmd {
        SenderCommand::AddPublication {
            correlation_id,
            stream_id,
            session_id,
            initial_term_id,
            term_length,
            mtu,
        } => {
            wire::write_i64(buf, 0, *correlation_id);
            wire::write_i32(buf, 8, *stream_id);
            wire::write_i32(buf, 12, *session_id);
            wire::write_i32(buf, 16, *initial_term_id);
            wire::write_u32(buf, 20, *term_length);
            wire::write_u32(buf, 24, *mtu);
            (INTERNAL_CMD_ADD_PUB, 28)
        },
        SenderCommand::RemovePublication { correlation_id, registration_id } => {
            wire::write_i64(buf, 0, *correlation_id);
            wire::write_i64(buf, 8, *registration_id);
            (INTERNAL_CMD_REMOVE_PUB, 16)
        },
    };
    assert(buf@ =~= wire::splice(old(buf)@, 0, cmd.bytes()));
    r
}

/// Decodes a command to the sender, `None` if it is unknown or too short.
pub fn decode_sender_cmd(msg_type: i32, data: &[u8]) -> (r: Option<SenderCommand>)
    ensures
        r == SenderCommand::decoded(msg_type, data@),
{
    if msg_type == INTERNAL_CMD_ADD_PUB && data.len() >= 28 {
        Some(
            SenderCommand::AddPublication {
                correlation_id: wire::read_i64(data, 0),
                stream_id: wire::read_i32(data, 8),
                session_id: wire::read_i32(data, 12),
                initial_term_id: wire::read_i32(data, 16),
                term_length: wire::read_u32(data, 20),
                mtu: wire::read_u32(data, 24),
            },
        )
    } else if msg_type == INTERNAL_CMD_REMOVE_PUB && data.len() >= 16 {
        Some(
            SenderCommand::RemovePublication {
                correlation_id: wire::read_i64(data, 0),
                registration_id: wire::read_i64(data, 8),
            },
        )
    } else {
        None
    }
}

/// Encodes a command to the receiver. Returns message type and payload length.
pub fn encode_receiver_cmd(cmd: &ReceiverCommand, buf: &mut [u8; 64]) -> (r: (i32, usize))
    ensures
        final(buf)@ == wire::splice(old(buf)@, 0, cmd.bytes()),
        r.0 == cmd.msg_type(),
        r.1 == cmd.bytes().len(),
        r.1 <= 64,
{
    let r: (i32, usize) = match cmd {
        ReceiverCommand::AddSubscription { correlation_id, stream_id } => {
            wire::write_i64(buf, 0, *correlation_id);
            wire::write_i32(buf, 8, *stream_id);
            (INTERNAL_CMD_ADD_SUB, 12)
        },
        ReceiverCommand::RemoveSubscription { correlation_id, registration_id } => {
            wire::write_i64(buf, 0, *correlation_id);
            wire::write_i64(buf, 8, *registration_id);
            (INTERNAL_CMD_REMOVE_SUB, 16)
        },
    };
    assert(buf@ =~= wire::splice(old(buf)@, 0, cmd.bytes()));
    r
}

/// Decodes a command to the receiver, `None` if it is unknown or too short.
pub fn decode_receiver_cmd(msg_type: i32, data: &[u8]) -> (r: Option<ReceiverCommand>)
    ensures
        r == ReceiverCommand::decoded(msg_type, data@),
{
    if msg_type == INTERNAL_CMD_ADD_SUB && data.len() >= 12 {
        Some(
            ReceiverCommand::AddSubscription {
                correlation_id: wire::read_i64(data, 0),
                stream_id: wire::read_i32(data, 8),
            },
        )
    } else if msg_type == INTERNAL_CMD_REMOVE_SUB && data.len() >= 16 {
        Some(
            ReceiverCommand::RemoveSubscription {
                correlation_id: wire::read_i64(data, 0),
                registration_id: wire::read_i64(data, 8),
            },
        )
    } else {
        None
    }
}

/// Liveness of a client.
#[derive(Clone, Copy, Debug, PartialEq, Eq, Structural)]
pub struct ClientEntry {
    pub client_id: i64,
    pub last_keepalive_ns: i64,
    pub active: bool,
}

impl Default for ClientEntry {
    fn default() -> (r: Self)
        ensures
            r == (ClientEntry { client_id: 0, last_keepalive_ns: 0, active: false }),
    {
        ClientEntry { client_id: 0, last_keepalive_ns: 0, active: false }
    }
}

/// Position of a client in the table from `from` on, the length if it is not
/// there.
pub open spec fn client_index(clients: Seq<ClientEntry>, client_id: i64, from: int) -> int
    decreases clients.len() - from,
{
    if from >= clients.len() || (clients[from].active && clients[from].client_id == client_id) {
        from
    } else {
        client_index(clients, client_id, from + 1)
    }
}

/// The client table after a sign of life: the client's entry is refreshed, or
/// added while there is room.
pub open spec fn touched(clients: Seq<ClientEntry>, client_id: i64, now_ns: i64) -> Seq<
    ClientEntry,
> {
    let i = client_index(clients, client_id, 0);
    if i < clients.len() {
        clients.update(i, ClientEntry { last_keepalive_ns: now_ns, ..clients[i] })
    } else if clients.len() < MAX_CLIENTS {
        clients.push(ClientEntry { client_id, last_keepalive_ns: now_ns, active: true })
    } else {
        clients
    }
}

/// A broadcast buffer's region after a transmission that may fail for want of
/// room.
pub open spec fn announced(
    tx: BroadcastTransmitter,
    s: Seq<u8>,
    msg_type: i32,
    payload: Seq<u8>,
) -> Seq<u8> {
    if payload.len() + broadcast::RECORD_HEADER_LENGTH > tx.layout.capacity {
        s
    } else {
        tx.layout.transmitted(s, msg_type, payload)
    }
}

/// What the conductor works on: its counters and client table, the region that
/// it shares with clients, and the queues to the other agents.
#[verifier::ext_equal]
pub struct ConductorModel {
    pub next_registration_id: i64,
    pub next_session_id: i32,
    pub clients: Seq<ClientEntry>,
    pub region: Seq<u8>,
    pub to_sender: Seq<u8>,
    pub to_receiver: Seq<u8>,
}

/// Where the conductor's channels are.
#[derive(Clone, Copy, Debug, PartialEq, Eq, Structural)]
pub struct Channels {
    pub cnc: DriverCnc,
    pub to_sender: MpscRingBuffer,
    pub to_receiver: MpscRingBuffer,
}

impl Channels {
    /// The channels are in the regions of a model.
    pub open spec fn fit(self, m: ConductorModel) -> bool {
        &&& self.cnc.fits(m.region)
        &&& self.cnc.to_driver.capacity as int / 32 <= i32::MAX
        &&& self.to_sender.fits(m.to_sender)
        &&& self.to_receiver.fits(m.to_receiver)
        &&& m.clients.len() <= MAX_CLIENTS
    }

    /// The command that asks the sender for a publication.
    pub open spec fn publication_command(
        correlation_id: i64,
        stream_id: i32,
        session_id: i32,
    ) -> SenderCommand {
        SenderCommand::AddPublication {
            correlation_id,
            stream_id,
            session_id,
            initial_term_id: 0,
            term_length: DEFAULT_TERM_LENGTH,
            mtu: DEFAULT_MTU,
        }
    }

    /// After a command to add a publication: the client is alive, the publication
    /// has the next registration and session ids, the sender is told, and the
    /// client gets its answer.
    pub open spec fn publication_added(
        self,
        m: ConductorModel,
        correlation_id: i64,
        client_id: i64,
        stream_id: i32,
        now_ns: i64,
    ) -> ConductorModel {
        let cmd = Self::publication_command(correlation_id, stream_id, m.next_session_id);
        let ready = PublicationReady {
            correlation_id,
            registration_id: m.next_registration_id,
            session_id: m.next_session_id,
            stream_id,
            position_limit_counter_id: 0,
            channel_status_indicator_id: 0,
        };
        ConductorModel {
            next_registration_id: m.next_registration_id.wrapping_add(1),
            next_session_id: m.next_session_id.wrapping_add(1),
            clients: touched(m.clients, client_id, now_ns),
            region: announced(self.cnc.to_clients, m.region, RSP_PUBLICATION_READY, ready.bytes()),
            to_sender: self.to_sender.sent(m.to_sender, cmd.msg_type(), cmd.bytes()),
            to_receiver: m.to_receiver,
        }
    }

    /// After a command to remove a publication: the sender is told.
    pub open spec fn publication_removed(
        self,
        m: ConductorModel,
        correlation_id: i64,
        registration_id: i64,
    ) -> ConductorModel {
        let cmd = SenderCommand::RemovePublication { correlation_id, registration_id };
        ConductorModel {
            to_sender: self.to_sender.sent(m.to_sender, cmd.msg_type(), cmd.bytes()),
            ..m
        }
    }

    /// After a command to add a subscription: the client is alive, the receiver is
    /// told, and the client gets its answer.
    pub open spec fn subscription_added(
        self,
        m: ConductorModel,
        correlation_id: i64,
        client_id: i64,
        stream_id: i32,
        now_ns: i64,
    ) -> ConductorModel {
        let cmd = ReceiverCommand::AddSubscription { correlation_id, stream_id };
        let ready = SubscriptionReady { correlation_id, channel_status_indicator_id: 0 };
        ConductorModel {
            clients: touched(m.clients, client_id, now_ns),
            region: announced(self.cnc.to_clients, m.region, RSP_SUBSCRIPTION_READY, ready.bytes()),
            to_receiver: self.to_receiver.sent(m.to_receiver, cmd.msg_type(), cmd.bytes()),
            ..m
        }
    }

    /// After a command to remove a subscription: the receiver is told.
    pub open spec fn subscription_removed(
        self,
        m: ConductorModel,
        correlation_id: i64,
        registration_id: i64,
    ) -> ConductorModel {
        let cmd = ReceiverCommand::RemoveSubscription { correlation_id, registration_id };
        ConductorModel {
            to_receiver: self.to_receiver.sent(m.to_receiver, cmd.msg_type(), cmd.bytes()),
            ..m
        }
    }

    /// After one command. Commands that are unknown or cannot be decoded change
    /// nothing.
    pub open spec fn processed(
        self,
        m: ConductorModel,
        msg_type: i32,
        payload: Seq<u8>,
        now_ns: i64,
    ) -> ConductorModel {
        if msg_type == CMD_ADD_PUBLICATION && AddPublication::decodable(payload) {
            self.publication_added(
                m,
                wire::i64_at(payload, 0),
                wire::i64_at(payload, 8),
                wire::i32_at(payload, 16),
                now_ns,
            )
        } else if msg_type == CMD_REMOVE_PUBLICATION && payload.len()
            >= command::REMOVE_PUBLICATION_LENGTH {
            let cmd = RemovePublication::decoded(payload);
            self.publication_removed(m, cmd.correlation_id, cmd.registration_id)
        } else if msg_type == CMD_ADD_SUBSCRIPTION && AddSubscription::decodable(payload) {
            self.subscription_added(
                m,
                wire::i64_at(payload, 0),
                wire::i64_at(payload, 8),
                wire::i32_at(payload, 16),
                now_ns,
            )
        } else if msg_type == CMD_REMOVE_SUBSCRIPTION && payload.len()
            >= command::REMOVE_SUBSCRIPTION_LENGTH {
            let cmd = RemoveSubscription::decoded(payload);
            self.subscription_removed(m, cmd.correlation_id, cmd.registration_id)
        } else if msg_type == CMD_CLIENT_KEEPALIVE && payload.len()
            >= command::CLIENT_KEEPALIVE_LENGTH {
            ConductorModel {
                clients: touched(m.clients, ClientKeepalive::decoded(payload).client_id, now_ns),
                ..m
            }
        } else {
            m
        }
    }

    /// The part of a command that is looked at.
    pub open spec fn clipped(payload: Seq<u8>) -> Seq<u8> {
        if payload.len() > MAX_CMD_LENGTH {
            payload.subrange(0, MAX_CMD_LENGTH as int)
        } else {
            payload
        }
    }

    /// After the first `k` of a sequence of commands.
    pub open spec fn processed_all(
        self,
        m: ConductorModel,
        commands: Seq<(i32, Seq<u8>)>,
        k: int,
        now_ns: i64,
    ) -> ConductorModel
        decreases k,
    {
        if k <= 0 {
            m
        } else {
            let before = self.processed_all(m, commands, k - 1, now_ns);
            self.processed(
                before,
                commands[k - 1].0,
                Self::clipped(commands[k - 1].1),
                now_ns,
            )
        }
    }

    /// The commands that wait.
    pub open spec fn waiting(self, region: Seq<u8>) -> Seq<(i32, Seq<u8>)> {
        if self.cnc.to_driver.consistent(region) {
            self.cnc.to_driver.pending(region)
        } else {
            Seq::empty()
        }
    }

    /// The region after the commands have been taken out.
    pub open spec fn taken(self, region: Seq<u8>) -> Seq<u8> {
        if self.cnc.to_driver.consistent(region) {
            self.cnc.to_driver.after_read(region)
        } else {
            region
        }
    }

    /// After a duty cycle: all waiting commands are taken out and processed in
    /// order, and the heartbeat is updated.
    pub open spec fn worked(self, m: ConductorModel, now_ns: i64, now_ms: i64) -> ConductorModel {
        let commands = self.waiting(m.region);
        let done = self.processed_all(
            ConductorModel { region: self.taken(m.region), ..m },
            commands,
            commands.len() as int,
            now_ns,
        );
        ConductorModel {
            region: wire::splice(
                done.region,
                cnc_file::DRIVER_HEARTBEAT_OFFSET as int,
                wire::i64_le(now_ms),
            ),
            ..done
        }
    }
}

/// The conductor.
#[derive(Debug)]
pub struct ConductorAgent {
    pub channels: Channels,
    /// Next registration id to give out.
    pub next_registration_id: i64,
    /// Next session id to give out.
    pub next_session_id: i32,
    pub clients: [ClientEntry; MAX_CLIENTS],
    pub client_count: usize,
    pub driver_timeout_ns: i64,
}

/// A new conductor with the queues that it shares with the sender and the
/// receiver.
#[derive(Debug)]
pub struct ConductorParts {
    pub conductor: ConductorAgent,
    pub sender_queue: SenderCommandQueue,
    pub receiver_queue: ReceiverCommandQueue,
    /// Region of the queue to the sender.
    pub to_sender_buf: Vec<u8>,
    /// Region of the queue to the receiver.
    pub to_receiver_buf: Vec<u8>,
}

impl ConductorAgent {
    /// The conductor with the regions that it works on.
    pub open spec fn model(
        self,
        region: Seq<u8>,
        to_sender: Seq<u8>,
        to_receiver: Seq<u8>,
    ) -> ConductorModel {
        ConductorModel {
            next_registration_id: self.next_registration_id,
            next_session_id: self.next_session_id,
            clients: self.clients@.subrange(0, self.client_count as int),
            region,
            to_sender,
            to_receiver,
        }
    }

    /// The client table is within bounds and the channels are in the regions.
    pub open spec fn fits(
        self,
        region: Seq<u8>,
        to_sender: Seq<u8>,
        to_receiver: Seq<u8>,
    ) -> bool {
        &&& self.client_count <= MAX_CLIENTS
        &&& self.channels.fit(self.model(region, to_sender, to_receiver))
    }

    /// Name of the agent.
    pub fn name(&self) -> (r: &str)
        ensures
            r@ == "aeron-conductor"@,
    {
        "aeron-conductor"
    }

    /// A conductor for the driver's side of a region, and empty queues to the
    /// sender and the receiver.
    pub fn new(cnc: DriverCnc, driver_timeout_ns: i64) -> (r: Result<
        ConductorParts,
        RingBufferError,
    >)
        ensures
            r is Ok,
            r matches Ok(parts) ==> {
                &&& parts.conductor.channels.cnc == cnc
                &&& parts.conductor.channels.to_sender == parts.sender_queue.rb
                &&& parts.conductor.channels.to_receiver == parts.receiver_queue.rb
                &&& parts.conductor.channels.to_sender.fits(parts.to_sender_buf@)
                &&& parts.conductor.channels.to_receiver.fits(parts.to_receiver_buf@)
                &&& parts.conductor.channels.to_sender.capacity == INTERNAL_QUEUE_CAPACITY
                &&& parts.conductor.channels.to_receiver.capacity == INTERNAL_QUEUE_CAPACITY
                &&& parts.conductor.channels.to_sender.offset == 0
                &&& parts.conductor.channels.to_receiver.offset == 0
                &&& parts.to_sender_buf@ == wire::zeros(
                    (INTERNAL_QUEUE_CAPACITY + ring_buffer::TRAILER_LENGTH) as nat,
                )
                &&& parts.to_receiver_buf@ == wire::zeros(
                    (INTERNAL_QUEUE_CAPACITY + ring_buffer::TRAILER_LENGTH) as nat,
                )
                &&& parts.conductor.next_registration_id == 1
                &&& parts.conductor.next_session_id == 1
                &&& parts.conductor.client_count == 0
                &&& parts.conductor.driver_timeout_ns == driver_timeout_ns
            },
    {
        proof {
            reveal_with_fuel(power2::is_pow2, 13);
        }
        let (to_sender_buf, to_sender) = match new_heap_ring_buffer(INTERNAL_QUEUE_CAPACITY) {
            Ok(pair) => pair,
            Err(e) => {
                return Err(e);
            },
        };
        let (to_receiver_buf, to_receiver) = match new_heap_ring_buffer(INTERNAL_QUEUE_CAPACITY) {
            Ok(pair) => pair,
            Err(e) => {
                return Err(e);
            },
        };
        let unknown = ClientEntry { client_id: 0, last_keepalive_ns: 0, active: false };
        Ok(
            ConductorParts {
                conductor: ConductorAgent {
                    channels: Channels { cnc, to_sender, to_receiver },
                    next_registration_id: 1,
                    next_session_id: 1,
                    clients: [unknown;MAX_CLIENTS],
                    client_count: 0,
                    driver_timeout_ns,
                },
                sender_queue: SenderCommandQueue { rb: to_sender },
                receiver_queue: ReceiverCommandQueue { rb: to_receiver },
                to_sender_buf,
                to_receiver_buf,
            },
        )
    }

    /// Gives out the next registration id.
    fn alloc_registration_id(&mut self) -> (r: i64)
        ensures
            r == old(self).next_registration_id,
            *final(self) == (ConductorAgent {
                next_registration_id: old(self).next_registration_id.wrapping_add(1),
                ..*old(self)
            }),
    {
        let id: i64 = self.next_registration_id;
        self.next_registration_id = id.wrapping_add(1);
        id
    }

    /// Gives out the next session id.
    fn alloc_session_id(&mut self) -> (r: i32)
        ensures
            r == old(self).next_session_id,
            *final(self) == (ConductorAgent {
                next_session_id: old(self).next_session_id.wrapping_add(1),
                ..*old(self)
            }),
    {
        let id: i32 = self.next_session_id;
        self.next_session_id = id.wrapping_add(1);
        id
    }

    /// Notes a sign of life of a client.
    fn touch_client(&mut self, client_id: i64, now_ns: i64)
        requires
            old(self).client_count <= MAX_CLIENTS,
        ensures
            final(self).client_count <= MAX_CLIENTS,
            final(self).clients@.subrange(0, final(self).client_count as int) == touched(
                old(self).clients@.subrange(0, old(self).client_count as int),
                client_id,
                now_ns,
            ),
            final(self).channels == old(self).channels,
            final(self).next_registration_id == old(self).next_registration_id,
            final(self).next_session_id == old(self).next_session_id,
            final(self).driver_timeout_ns == old(self).driver_timeout_ns,
    {
        let ghost known = self.clients@.subrange(0, self.client_count as int);
        let mut i: usize = 0;
        while i < self.client_count
            invariant
                i <= self.client_count <= MAX_CLIENTS,
                *self == *old(self),
                known == self.clients@.subrange(0, self.client_count as int),
                client_index(known, client_id, 0) == client_index(known, client_id, i as int),
            decreases self.client_count - i,
        {
            assert(known[i as int] == self.clients@[i as int]);
            if self.clients[i].active && self.clients[i].client_id == client_id {
                let mut entry = self.clients[i];
                entry.last_keepalive_ns = now_ns;
                self.clients[i] = entry;
                assert(self.clients@.subrange(0, self.client_count as int) =~= touched(
                    known,
                    client_id,
                    now_ns,
                ));
                return ;
            }
            i += 1;
        }
        if self.client_count < MAX_CLIENTS {
            self.clients[self.client_count] = ClientEntry {
                client_id,
                last_keepalive_ns: now_ns,
                active: true,
            };
            self.client_count = self.client_count + 1;
        }
        assert(self.clients@.subrange(0, self.client_count as int) =~= touched(
            known,
            client_id,
            now_ns,
        ));
    }

    /// Processes one command.
    pub fn process_command(
        &mut self,
        region: &mut [u8],
        to_sender: &mut [u8],
        to_receiver: &mut [u8],
        msg_type: i32,
        payload: &[u8],
        now_ns: i64,
    )
        requires
            old(self).fits(old(region)@, old(to_sender)@, old(to_receiver)@),
        ensures
            final(self).fits(final(region)@, final(to_sender)@, final(to_receiver)@),
            final(self).channels == old(self).channels,
            final(self).driver_timeout_ns == old(self).driver_timeout_ns,
            final(self).model(final(region)@, final(to_sender)@, final(to_receiver)@) == old(
                self,
            ).channels.processed(
                old(self).model(old(region)@, old(to_sender)@, old(to_receiver)@),
                msg_type,
                payload@,
                now_ns,
            ),
    {
        if msg_type == CMD_ADD_PUBLICATION {
            if let Some(cmd) = AddPublication::decode(payload) {
                self.handle_add_publication(region, to_sender, cmd, now_ns);
            }
        } else if msg_type == CMD_REMOVE_PUBLICATION {
            if let Some(cmd) = RemovePublication::decode(payload) {
                self.handle_remove_publication(to_sender, cmd);
            }
        } else if msg_type == CMD_ADD_SUBSCRIPTION {
            if let Some(cmd) = AddSubscription::decode(payload) {
                self.handle_add_subscription(region, to_receiver, cmd, now_ns);
            }
        } else if msg_type == CMD_REMOVE_SUBSCRIPTION {
            if let Some(cmd) = RemoveSubscription::decode(payload) {
                self.handle_remove_subscription(to_receiver, cmd);
            }
        } else if msg_type == CMD_CLIENT_KEEPALIVE {
            if let Some(cmd) = ClientKeepalive::decode(payload) {
                self.touch_client(cmd.client_id, now_ns);
            }
        }
    }

    fn handle_add_publication(
        &mut self,
        region: &mut [u8],
        to_sender: &mut [u8],
        cmd: AddPublication,
        now_ns: i64,
    )
        requires
            old(self).client_count <= MAX_CLIENTS,
            old(self).channels.cnc.fits(old(region)@),
            old(self).channels.to_sender.fits(old(to_sender)@),
        ensures
            final(self).client_count <= MAX_CLIENTS,
            final(self).channels == old(self).channels,
            final(self).driver_timeout_ns == old(self).driver_timeout_ns,
            final(region)@.len() == old(region)@.len(),
            final(to_sender)@.len() == old(to_sender)@.len(),
            forall|to_receiver: Seq<u8>|
                #![trigger final(self).model(final(region)@, final(to_sender)@, to_receiver)]
                final(self).model(final(region)@, final(to_sender)@, to_receiver) == old(
                    self,
                ).channels.publication_added(
                    old(self).model(old(region)@, old(to_sender)@, to_receiver),
                    cmd.correlation_id,
                    cmd.client_id,
                    cmd.stream_id,
                    now_ns,
                ),
    {
        self.touch_client(cmd.client_id, now_ns);
        let registration_id: i64 = self.alloc_registration_id();
        let session_id: i32 = self.alloc_session_id();
        let sender_cmd = SenderCommand::AddPublication {
            correlation_id: cmd.correlation_id,
            stream_id: cmd.stream_id,
            session_id,
            initial_term_id: 0,
            term_length: DEFAULT_TERM_LENGTH,
            mtu: DEFAULT_MTU,
        };
        self.send_to_sender(to_sender, &sender_cmd);
        let rsp = PublicationReady {
            correlation_id: cmd.correlation_id,
            registration_id,
            session_id,
            stream_id: cmd.stream_id,
            position_limit_counter_id: 0,
            channel_status_indicator_id: 0,
        };
        let mut scratch: [u8; MAX_CMD_LENGTH] = [0u8;MAX_CMD_LENGTH];
        if let Some(len) = rsp.encode(&mut scratch) {
            let response = slice_subrange(scratch.as_slice(), 0, len);
            assert(response@ =~= rsp.bytes());
            self.respond(region, RSP_PUBLICATION_READY, response);
        }
    }

    fn handle_remove_publication(&mut self, to_sender: &mut [u8], cmd: RemovePublication)
        requires
            old(self).channels.to_sender.fits(old(to_sender)@),
        ensures
            *final(self) == *old(self),
            final(to_sender)@.len() == old(to_sender)@.len(),
            forall|region: Seq<u8>, to_receiver: Seq<u8>|
                #![trigger final(self).model(region, final(to_sender)@, to_receiver)]
                final(self).model(region, final(to_sender)@, to_receiver) == old(
                    self,
                ).channels.publication_removed(
                    old(self).model(region, old(to_sender)@, to_receiver),
                    cmd.correlation_id,
                    cmd.registration_id,
                ),
    {
        let sender_cmd = SenderCommand::RemovePublication {
            correlation_id: cmd.correlation_id,
            registration_id: cmd.registration_id,
        };
        self.send_to_sender(to_sender, &sender_cmd);
    }

    fn handle_add_subscription(
        &mut self,
        region: &mut [u8],
        to_receiver: &mut [u8],
        cmd: AddSubscription,
        now_ns: i64,
    )
        requires
            old(self).client_count <= MAX_CLIENTS,
            old(self).channels.cnc.fits(old(region)@),
            old(self).channels.to_receiver.fits(old(to_receiver)@),
        ensures
            final(self).client_count <= MAX_CLIENTS,
            final(self).channels == old(self).channels,
            final(self).driver_timeout_ns == old(self).driver_timeout_ns,
            final(region)@.len() == old(region)@.len(),
            final(to_receiver)@.len() == old(to_receiver)@.len(),
            forall|to_sender: Seq<u8>|
                #![trigger final(self).model(final(region)@, to_sender, final(to_receiver)@)]
                final(self).model(final(region)@, to_sender, final(to_receiver)@) == old(
                    self,
                ).channels.subscription_added(
                    old(self).model(old(region)@, to_sender, old(to_receiver)@),
                    cmd.correlation_id,
                    cmd.client_id,
                    cmd.stream_id,
                    now_ns,
                ),
    {
        self.touch_client(cmd.client_id, now_ns);
        let recv_cmd = ReceiverCommand::AddSubscription {
            correlation_id: cmd.correlation_id,
            stream_id: cmd.stream_id,
        };
        self.send_to_receiver(to_receiver, &recv_cmd);
        let rsp = SubscriptionReady {
            correlation_id: cmd.correlation_id,
            channel_status_indicator_id: 0,
        };
        let mut scratch: [u8; MAX_CMD_LENGTH] = [0u8;MAX_CMD_LENGTH];
        if let Some(len) = rsp.encode(&mut scratch) {
            let response = slice_subrange(scratch.as_slice(), 0, len);
            assert(response@ =~= rsp.bytes());
            self.respond(region, RSP_SUBSCRIPTION_READY, response);
        }
    }

    fn handle_remove_subscription(&mut self, to_receiver: &mut [u8], cmd: RemoveSubscription)
        requires
            old(self).channels.to_receiver.fits(old(to_receiver)@),
        ensures
            *final(self) == *old(self),
            final(to_receiver)@.len() == old(to_receiver)@.len(),
            forall|region: Seq<u8>, to_sender: Seq<u8>|
                #![trigger final(self).model(region, to_sender, final(to_receiver)@)]
                final(self).model(region, to_sender, final(to_receiver)@) == old(
                    self,
                ).channels.subscription_removed(
                    old(self).model(region, to_sender, old(to_receiver)@),
                    cmd.correlation_id,
                    cmd.registration_id,
                ),
    {
        let recv_cmd = ReceiverCommand::RemoveSubscription {
            correlation_id: cmd.correlation_id,
            registration_id: cmd.registration_id,
        };
        self.send_to_receiver(to_receiver, &recv_cmd);
    }

    /// Queues a command to the sender, dropped if the queue is full.
    fn send_to_sender(&self, to_sender: &mut [u8], cmd: &SenderCommand)
        requires
            self.channels.to_sender.fits(old(to_sender)@),
        ensures
            final(to_sender)@ == self.channels.to_sender.sent(
                old(to_sender)@,
                cmd.msg_type(),
                cmd.bytes(),
            ),
            final(to_sender)@.len() == old(to_sender)@.len(),
    {
        let mut buf: [u8; 64] = [0u8;64];
        let (msg_type, len) = encode_sender_cmd(cmd, &mut buf);
        let payload = slice_subrange(buf.as_slice(), 0, len);
        assert(payload@ =~= cmd.bytes());
        let _ = self.channels.to_sender.write(to_sender, msg_type, payload);
    }

    /// Queues a command to the receiver, dropped if the queue is full.
    fn send_to_receiver(&self, to_receiver: &mut [u8], cmd: &ReceiverCommand)
        requires
            self.channels.to_receiver.fits(old(to_receiver)@),
        ensures
            final(to_receiver)@ == self.channels.to_receiver.sent(
                old(to_receiver)@,
                cmd.msg_type(),
                cmd.bytes(),
            ),
            final(to_receiver)@.len() == old(to_receiver)@.len(),
    {
        let mut buf: [u8; 64] = [0u8;64];
        let (msg_type, len) = encode_receiver_cmd(cmd, &mut buf);
        let payload = slice_subrange(buf.as_slice(), 0, len);
        assert(payload@ =~= cmd.bytes());
        let _ = self.channels.to_receiver.write(to_receiver, msg_type, payload);
    }

    /// Transmits a response, dropped if it is too large for the buffer.
    fn respond(&self, region: &mut [u8], msg_type: i32, payload: &[u8])
        requires
            self.channels.cnc.fits(old(region)@),
        ensures
            final(region)@ == announced(
                self.channels.cnc.to_clients,
                old(region)@,
                msg_type,
                payload@,
            ),
            final(region)@.len() == old(region)@.len(),
    {
        let _ = self.channels.cnc.to_clients.transmit(region, msg_type, payload);
    }

    /// One duty cycle: takes the waiting commands out of the region, processes them
    /// in order, and updates the heartbeat. Returns how many commands waited.
    pub fn do_work(
        &mut self,
        region: &mut [u8],
        to_sender: &mut [u8],
        to_receiver: &mut [u8],
        now_ns: i64,
        now_ms: i64,
    ) -> (r: i32)
        requires
            old(self).fits(old(region)@, old(to_sender)@, old(to_receiver)@),
        ensures
            r == old(self).channels.waiting(old(region)@).len(),
            final(self).fits(final(region)@, final(to_sender)@, final(to_receiver)@),
            final(self).channels == old(self).channels,
            final(self).driver_timeout_ns == old(self).driver_timeout_ns,
            final(self).model(final(region)@, final(to_sender)@, final(to_receiver)@) == old(
                self,
            ).channels.worked(
                old(self).model(old(region)@, old(to_sender)@, old(to_receiver)@),
                now_ns,
                now_ms,
            ),
    {
        let ghost start = self.model(region@, to_sender@, to_receiver@);
        let ghost commands = self.channels.waiting(region@);
        let ghost channels = self.channels;
        let mut messages: Vec<RingMessage> = Vec::new();
        let count: i32 = self.channels.cnc.to_driver.read(region, &mut messages);
        proof {
            assert(ring_buffer::message_views(messages@) =~= commands);
            lemma_taken_length(channels, start.region);
        }
        let ghost base = ConductorModel { region: region@, ..start };
        assert(base == self.model(region@, to_sender@, to_receiver@));
        let mut i: usize = 0;
        while i < messages.len()
            invariant
                i <= messages@.len(),
                ring_buffer::message_views(messages@) == commands,
                self.fits(region@, to_sender@, to_receiver@),
                self.channels == channels,
                self.driver_timeout_ns == old(self).driver_timeout_ns,
                self.model(region@, to_sender@, to_receiver@) == channels.processed_all(
                    base,
                    commands,
                    i as int,
                    now_ns,
                ),
            decreases messages@.len() - i,
        {
            let message = &messages[i];
            assert(message@ == commands[i as int]);
            let len: usize = if message.payload.len() < MAX_CMD_LENGTH {
                message.payload.len()
            } else {
                MAX_CMD_LENGTH
            };
            let payload = slice_subrange(message.payload.as_slice(), 0, len);
            assert(payload@ =~= Channels::clipped(commands[i as int].1));
            self.process_command(
                region,
                to_sender,
                to_receiver,
                message.msg_type,
                payload,
                now_ns,
            );
            i += 1;
        }
        self.channels.cnc.update_heartbeat(region, now_ms);
        count
    }
}

proof fn lemma_taken_length(channels: Channels, region: Seq<u8>)
    requires
        channels.cnc.to_driver.fits(region),
    ensures
        channels.taken(region).len() == region.len(),
{
    let ring = channels.cnc.to_driver;
    if ring.consistent(region) {
        ring_buffer::lemma_after_read_length(ring, region);
    }
}

/// The sender's end of the conductor's queue.
#[derive(Clone, Copy, Debug, PartialEq, Eq, Structural)]
pub struct SenderCommandQueue {
    pub rb: MpscRingBuffer,
}

/// The commands to the sender among messages, in order.
pub open spec fn sender_commands(messages: Seq<(i32, Seq<u8>)>) -> Seq<SenderCommand>
    decreases messages.len(),
{
    if messages.len() == 0 {
        Seq::empty()
    } else {
        let before = sender_commands(messages.drop_last());
        match SenderCommand::decoded(messages.last().0, messages.last().1) {
            Some(cmd) => before.push(cmd),
            None => before,
        }
    }
}

impl SenderCommandQueue {
    /// Takes every queued command, appends them to `commands` in order, and returns
    /// the number of messages taken. Messages that are no command are dropped.
    pub fn poll(&self, buffer: &mut [u8], commands: &mut Vec<SenderCommand>) -> (r: i32)
        requires
            self.rb.fits(old(buffer)@),
            self.rb.capacity as int / 32 <= i32::MAX,
        ensures
            self.rb.consistent(old(buffer)@) ==> {
                &&& r == self.rb.pending(old(buffer)@).len()
                &&& final(buffer)@ == self.rb.after_read(old(buffer)@)
                &&& final(commands)@ == old(commands)@ + sender_commands(
                    self.rb.pending(old(buffer)@),
                )
            },
            !self.rb.consistent(old(buffer)@) ==> {
                &&& r == 0
                &&& final(buffer)@ == old(buffer)@
                &&& final(commands)@ == old(commands)@
            },
    {
        let mut messages: Vec<RingMessage> = Vec::new();
        let count: i32 = self.rb.read(buffer, &mut messages);
        let ghost views = ring_buffer::message_views(messages@);
        let ghost prior = commands@;
        let mut i: usize = 0;
        assert(prior + sender_commands(views.take(0)) =~= prior);
        while i < messages.len()
            invariant
                i <= messages@.len(),
                views == ring_buffer::message_views(messages@),
                commands@ == prior + sender_commands(views.take(i as int)),
            decreases messages@.len() - i,
        {
            let message = &messages[i];
            assert(message@ == views[i as int]);
            assert(views.take(i + 1).drop_last() =~= views.take(i as int));
            if let Some(cmd) = decode_sender_cmd(message.msg_type, message.payload.as_slice()) {
                commands.push(cmd);
            }
            assert(commands@ =~= prior + sender_commands(views.take(i + 1)));
            i += 1;
        }
        assert(views.take(i as int) =~= views);
        assert(self.rb.consistent(old(buffer)@) ==> views =~= self.rb.pending(old(buffer)@));
        assert(!self.rb.consistent(old(buffer)@) ==> commands@ =~= prior);
        count
    }
}

/// The receiver's end of the conductor's queue.
#[derive(Clone, Copy, Debug, PartialEq, Eq, Structural)]
pub struct ReceiverCommandQueue {
    pub rb: MpscRingBuffer,
}

/// The commands to the receiver among messages, in order.
pub open spec fn receiver_commands(messages: Seq<(i32, Seq<u8>)>) -> Seq<ReceiverCommand>
    decreases messages.len(),
{
    if messages.len() == 0 {
        Seq::empty()
    } else {
        let before = receiver_commands(messages.drop_last());
        match ReceiverCommand::decoded(messages.last().0, messages.last().1) {
            Some(cmd) => before.push(cmd),
            None => before,
        }
    }
}

impl ReceiverCommandQueue {
    /// Takes every queued command, appends them to `commands` in order, and returns
    /// the number of messages taken. Messages that are no command are dropped.
    pub fn poll(&self, buffer: &mut [u8], commands: &mut Vec<ReceiverCommand>) -> (r: i32)
        requires
            self.rb.fits(old(buffer)@),
            self.rb.capacity as int / 32 <= i32::MAX,
        ensures
            self.rb.consistent(old(buffer)@) ==> {
                &&& r == self.rb.pending(old(buffer)@).len()
                &&& final(buffer)@ == self.rb.after_read(old(buffer)@)
                &&& final(commands)@ == old(commands)@ + receiver_commands(
                    self.rb.pending(old(buffer)@),
                )
            },
            !self.rb.consistent(old(buffer)@) ==> {
                &&& r == 0
                &&& final(buffer)@ == old(buffer)@
                &&& final(commands)@ == old(commands)@
            },
    {
        let mut messages: Vec<RingMessage> = Vec::new();
        let count: i32 = self.rb.read(buffer, &mut messages);
        let ghost views = ring_buffer::message_views(messages@);
        let ghost prior = commands@;
        let mut i: usize = 0;
        assert(prior + receiver_commands(views.take(0)) =~= prior);
        while i < messages.len()
            invariant
                i <= messages@.len(),
                views == ring_buffer::message_views(messages@),
                commands@ == prior + receiver_commands(views.take(i as int)),
            decreases messages@.len() - i,
        {
            let message = &messages[i];
            assert(message@ == views[i as int]);
            assert(views.take(i + 1).drop_last() =~= views.take(i as int));
            if let Some(cmd) = decode_receiver_cmd(message.msg_type, message.payload.as_slice()) {
                commands.push(cmd);
            }
            assert(commands@ =~= prior + receiver_commands(views.take(i + 1)));
            i += 1;
        }
        assert(views.take(i as int) =~= views);
        assert(self.rb.consistent(old(buffer)@) ==> views =~= self.rb.pending(old(buffer)@));
        assert(!self.rb.consistent(old(buffer)@) ==> commands@ =~= prior);
        count
    }
}

/// A command to the sender survives the way through the queue.
pub proof fn law_sender_command_round_trip(cmd: SenderCommand)
    ensures
        SenderCommand::decoded(cmd.msg_type(), cmd.bytes()) == Some(cmd),
{
    let t = cmd.bytes();
    match cmd {
        SenderCommand::AddPublication {
            correlation_id,
            stream_id,
            session_id,
            initial_term_id,
            term_length,
            mtu,
        } => {
            assert forall|i: int| 0 <= i < 8 implies t[0 + i] == #[trigger] wire::i64_le(
                correlation_id,
            )[i] by {}
            wire::lemma_i64_at_le(t, 0, correlation_id);
            assert forall|i: int| 0 <= i < 4 implies t[8 + i] == #[trigger] wire::i32_le(
                stream_id,
            )[i] by {}
            wire::lemma_i32_at_le(t, 8, stream_id);
            assert forall|i: int| 0 <= i < 4 implies t[12 + i] == #[trigger] wire::i32_le(
                session_id,
            )[i] by {}
            wire::lemma_i32_at_le(t, 12, session_id);
            assert forall|i: int| 0 <= i < 4 implies t[16 + i] == #[trigger] wire::i32_le(
                initial_term_id,
            )[i] by {}
            wire::lemma_i32_at_le(t, 16, initial_term_id);
            assert forall|i: int| 0 <= i < 4 implies t[20 + i] == #[trigger] wire::u32_le(
                term_length,
            )[i] by {}
            wire::lemma_u32_at_le(t, 20, term_length);
            assert forall|i: int| 0 <= i < 4 implies t[24 + i] == #[trigger] wire::u32_le(
                mtu,
            )[i] by {}
            wire::lemma_u32_at_le(t, 24, mtu);
        },
        SenderCommand::RemovePublication { correlation_id, registration_id } => {
            lemma_two_ids(correlation_id, registration_id);
        },
    }
}

/// A command to the receiver survives the way through the queue.
pub proof fn law_receiver_command_round_trip(cmd: ReceiverCommand)
    ensures
        ReceiverCommand::decoded(cmd.msg_type(), cmd.bytes()) == Some(cmd),
{
    let t = cmd.bytes();
    match cmd {
        ReceiverCommand::AddSubscription { correlation_id, stream_id } => {
            assert forall|i: int| 0 <= i < 8 implies t[0 + i] == #[trigger] wire::i64_le(
                correlation_id,
            )[i] by {}
            wire::lemma_i64_at_le(t, 0, correlation_id);
            assert forall|i: int| 0 <= i < 4 implies t[8 + i] == #[trigger] wire::i32_le(
                stream_id,
            )[i] by {}
            wire::lemma_i32_at_le(t, 8, stream_id);
        },
        ReceiverCommand::RemoveSubscription { correlation_id, registration_id } => {
            lemma_two_ids(correlation_id, registration_id);
        },
    }
}

proof fn lemma_two_ids(first: i64, second: i64)
    ensures
        wire::i64_at(wire::i64_le(first) + wire::i64_le(second), 0) == first,
        wire::i64_at(wire::i64_le(first) + wire::i64_le(second), 8) == second,
        (wire::i64_le(first) + wire::i64_le(second)).len() == 16,
{
    let t = wire::i64_le(first) + wire::i64_le(second);
    assert forall|i: int| 0 <= i < 8 implies t[0 + i] == #[trigger] wire::i64_le(first)[i] by {}
    wire::lemma_i64_at_le(t, 0, first);
    assert forall|i: int| 0 <= i < 8 implies t[8 + i] == #[trigger] wire::i64_le(second)[i] by {}
    wire::lemma_i64_at_le(t, 8, second);
}

/// A request for a publication reaches the sender behind what is queued already,
/// as long as the queue has room, with the session id that the client is told.
pub proof fn law_publication_reaches_sender(
    channels: Channels,
    m: ConductorModel,
    claim: ring_buffer::Claim,
    correlation_id: i64,
    client_id: i64,
    stream_id: i32,
    now_ns: i64,
)
    requires
        channels.fit(m),
        channels.to_sender.capacity <= i32::MAX,
        channels.to_sender.committed(m.to_sender),
        channels.to_sender.claim_of(
            channels.to_sender.head(m.to_sender),
            channels.to_sender.tail(m.to_sender),
            28,
        ) == Ok::<ring_buffer::Claim, RingBufferError>(claim),
    ensures
        ({
            let after = channels.publication_added(
                m,
                correlation_id,
                client_id,
                stream_id,
                now_ns,
            );
            &&& channels.to_sender.committed(after.to_sender)
            &&& sender_commands(channels.to_sender.pending(after.to_sender)) == sender_commands(
                channels.to_sender.pending(m.to_sender),
            ).push(
                SenderCommand::AddPublication {
                    correlation_id,
                    stream_id,
                    session_id: m.next_session_id,
                    initial_term_id: 0,
                    term_length: 65536,
                    mtu: 1408,
                },
            )
        }),
{
    let cmd = Channels::publication_command(correlation_id, stream_id, m.next_session_id);
    law_sender_command_round_trip(cmd);
    assert(cmd.bytes().len() == 28);
    ring_buffer::law_write_appends(
        channels.to_sender,
        m.to_sender,
        claim,
        cmd.msg_type(),
        cmd.bytes(),
    );
    let before = channels.to_sender.pending(m.to_sender);
    let message = (cmd.msg_type(), cmd.bytes());
    assert(before.push(message).drop_last() =~= before);
    assert(before.push(message).last() == message);
}

/// A request for a subscription reaches the receiver behind what is queued
/// already, as long as the queue has room.
pub proof fn law_subscription_reaches_receiver(
    channels: Channels,
    m: ConductorModel,
    claim: ring_buffer::Claim,
    correlation_id: i64,
    client_id: i64,
    stream_id: i32,
    now_ns: i64,
)
    requires
        channels.fit(m),
        channels.to_receiver.capacity <= i32::MAX,
        channels.to_receiver.committed(m.to_receiver),
        channels.to_receiver.claim_of(
            channels.to_receiver.head(m.to_receiver),
            channels.to_receiver.tail(m.to_receiver),
            12,
        ) == Ok::<ring_buffer::Claim, RingBufferError>(claim),
    ensures
        ({
            let after = channels.subscription_added(
                m,
                correlation_id,
                client_id,
                stream_id,
                now_ns,
            );
            &&& channels.to_receiver.committed(after.to_receiver)
            &&& receiver_commands(channels.to_receiver.pending(after.to_receiver))
                == receiver_commands(channels.to_receiver.pending(m.to_receiver)).push(
                ReceiverCommand::AddSubscription { correlation_id, stream_id },
            )
        }),
{
    let cmd = ReceiverCommand::AddSubscription { correlation_id, stream_id };
    law_receiver_command_round_trip(cmd);
    assert(cmd.bytes().len() == 12);
    ring_buffer::law_write_appends(
        channels.to_receiver,
        m.to_receiver,
        claim,
        cmd.msg_type(),
        cmd.bytes(),
    );
    let before = channels.to_receiver.pending(m.to_receiver);
    let message = (cmd.msg_type(), cmd.bytes());
    assert(before.push(message).drop_last() =~= before);
    assert(before.push(message).last() == message);
}

/// A client that has read everything before, and is not lapped, is answered: it
/// finds the publication's ids under the correlation id of its request.
pub proof fn law_publication_is_answered(
    channels: Channels,
    m: ConductorModel,
    rx: broadcast::BroadcastReceiver,
    correlation_id: i64,
    client_id: i64,
    stream_id: i32,
    now_ns: i64,
)
    requires
        channels.fit(m),
        rx.layout == channels.cnc.to_clients.layout,
        rx.layout.capacity <= i32::MAX,
        rx.layout.capacity >= 64,
        rx.cursor == rx.layout.tail(m.region),
        rx.cursor as int % 32 == 0,
        broadcast::advance_for(rx.layout, rx.cursor as int, 32) <= rx.layout.capacity,
    ensures
        ({
            let after = channels.publication_added(
                m,
                correlation_id,
                client_id,
                stream_id,
                now_ns,
            );
            let unread = rx.unread(after.region);
            &&& unread.len() == 1
            &&& unread[0].0 == RSP_PUBLICATION_READY
            &&& PublicationReady::decoded(unread[0].1) == (PublicationReady {
                correlation_id,
                registration_id: m.next_registration_id,
                session_id: m.next_session_id,
                stream_id,
                position_limit_counter_id: 0,
                channel_status_indicator_id: 0,
            })
        }),
{
    let ready = PublicationReady {
        correlation_id,
        registration_id: m.next_registration_id,
        session_id: m.next_session_id,
        stream_id,
        position_limit_counter_id: 0,
        channel_status_indicator_id: 0,
    };
    assert(ready.bytes().len() == 32);
    assert(rx.behind(m.region) == 0);
    assert(rx.unread(m.region) =~= Seq::<(i32, Seq<u8>)>::empty());
    broadcast::law_transmit_appends(rx, m.region, RSP_PUBLICATION_READY, ready.bytes());
    command::law_publication_ready_round_trip(ready, ready.bytes());
    assert(wire::splice(ready.bytes(), 0, ready.bytes()) =~= ready.bytes());
}

/// A client that has read everything before, and is not lapped, is told that its
/// subscription was added, under the correlation id of its request.
pub proof fn law_subscription_is_answered(
    channels: Channels,
    m: ConductorModel,
    rx: broadcast::BroadcastReceiver,
    correlation_id: i64,
    client_id: i64,
    stream_id: i32,
    now_ns: i64,
)
    requires
        channels.fit(m),
        rx.layout == channels.cnc.to_clients.layout,
        rx.layout.capacity <= i32::MAX,
        rx.cursor == rx.layout.tail(m.region),
        rx.cursor as int % 32 == 0,
        broadcast::advance_for(rx.layout, rx.cursor as int, 12) <= rx.layout.capacity,
    ensures
        ({
            let after = channels.subscription_added(
                m,
                correlation_id,
                client_id,
                stream_id,
                now_ns,
            );
            let unread = rx.unread(after.region);
            &&& unread.len() == 1
            &&& unread[0].0 == RSP_SUBSCRIPTION_READY
            &&& SubscriptionReady::decoded(unread[0].1) == (SubscriptionReady {
                correlation_id,
                channel_status_indicator_id: 0,
            })
        }),
{
    let ready = SubscriptionReady { correlation_id, channel_status_indicator_id: 0 };
    assert(ready.bytes().len() == 12);
    broadcast::law_transmit_appends(rx, m.region, RSP_SUBSCRIPTION_READY, ready.bytes());
    command::law_subscription_ready_round_trip(ready, ready.bytes());
    assert(wire::splice(ready.bytes(), 0, ready.bytes()) =~= ready.bytes());
}

/// Successive publications get successive registration and session ids.
pub proof fn law_ids_are_successive(
    channels: Channels,
    m: ConductorModel,
    correlation_id: i64,
    client_id: i64,
    stream_id: i32,
    now_ns: i64,
)
    ensures
        ({
            let after = channels.publication_added(
                m,
                correlation_id,
                client_id,
                stream_id,
                now_ns,
            );
            &&& after.next_registration_id == m.next_registration_id.wrapping_add(1)
            &&& after.next_session_id == m.next_session_id.wrapping_add(1)
            &&& after.next_registration_id != m.next_registration_id
            &&& after.next_session_id != m.next_session_id
        }),
{
}

/// A search for a client ends at its entry or at the end of the table.
proof fn lemma_client_index(clients: Seq<ClientEntry>, client_id: i64, from: int)
    requires
        0 <= from <= clients.len(),
    ensures
        from <= client_index(clients, client_id, from) <= clients.len(),
        ({
            let i = client_index(clients, client_id, from);
            i < clients.len() ==> clients[i].active && clients[i].client_id == client_id
        }),
    decreases clients.len() - from,
{
    if from < clients.len() && !(clients[from].active && clients[from].client_id == client_id) {
        lemma_client_index(clients, client_id, from + 1);
    }
}

/// After a sign of life the client is in the table with the current time, unless
/// the table is full of others; the other entries stay as they are.
pub proof fn law_touched_client_is_tracked(
    clients: Seq<ClientEntry>,
    client_id: i64,
    now_ns: i64,
)
    requires
        clients.len() < MAX_CLIENTS || client_index(clients, client_id, 0) < clients.len(),
    ensures
        exists|i: int|
            0 <= i < touched(clients, client_id, now_ns).len() && #[trigger] touched(
                clients,
                client_id,
                now_ns,
            )[i] == (ClientEntry { client_id, last_keepalive_ns: now_ns, active: true }),
        forall|i: int|
            0 <= i < clients.len() && clients[i].client_id != client_id ==> #[trigger] touched(
                clients,
                client_id,
                now_ns,
            )[i] == clients[i],
{
    lemma_client_index(clients, client_id, 0);
    let i = client_index(clients, client_id, 0);
    assert(touched(clients, client_id, now_ns)[i] == (ClientEntry {
        client_id,
        last_keepalive_ns: now_ns,
        active: true,
    }));
}

/// A command that the queue to the sender has room for comes last among those that
/// the sender finds there.
proof fn lemma_sender_is_told(ring: MpscRingBuffer, s: Seq<u8>, cmd: SenderCommand)
    requires
        ring.fits(s),
        ring.capacity <= i32::MAX,
        ring.committed(s),
        ring.claim_of(ring.head(s), ring.tail(s), cmd.bytes().len() as int) is Ok,
    ensures
        ring.committed(ring.sent(s, cmd.msg_type(), cmd.bytes())),
        sender_commands(ring.pending(ring.sent(s, cmd.msg_type(), cmd.bytes())))
            == sender_commands(ring.pending(s)).push(cmd),
{
    law_sender_command_round_trip(cmd);
    let claim = ring.claim_of(ring.head(s), ring.tail(s), cmd.bytes().len() as int)->Ok_0;
    ring_buffer::law_write_appends(ring, s, claim, cmd.msg_type(), cmd.bytes());
    let before = ring.pending(s);
    let message = (cmd.msg_type(), cmd.bytes());
    assert(before.push(message).drop_last() =~= before);
    assert(before.push(message).last() == message);
}

/// A command that the queue to the receiver has room for comes last among those
/// that the receiver finds there.
proof fn lemma_receiver_is_told(ring: MpscRingBuffer, s: Seq<u8>, cmd: ReceiverCommand)
    requires
        ring.fits(s),
        ring.capacity <= i32::MAX,
        ring.committed(s),
        ring.claim_of(ring.head(s), ring.tail(s), cmd.bytes().len() as int) is Ok,
    ensures
        ring.committed(ring.sent(s, cmd.msg_type(), cmd.bytes())),
        receiver_commands(ring.pending(ring.sent(s, cmd.msg_type(), cmd.bytes())))
            == receiver_commands(ring.pending(s)).push(cmd),
{
    law_receiver_command_round_trip(cmd);
    let claim = ring.claim_of(ring.head(s), ring.tail(s), cmd.bytes().len() as int)->Ok_0;
    ring_buffer::law_write_appends(ring, s, claim, cmd.msg_type(), cmd.bytes());
    let before = ring.pending(s);
    let message = (cmd.msg_type(), cmd.bytes());
    assert(before.push(message).drop_last() =~= before);
    assert(before.push(message).last() == message);
}

/// A queue that a command of this length can be written to.
pub open spec fn has_room(ring: MpscRingBuffer, s: Seq<u8>, length: int) -> bool {
    &&& ring.capacity <= i32::MAX
    &&& ring.committed(s)
    &&& ring.claim_of(ring.head(s), ring.tail(s), length) is Ok
}

/// A request for a publication makes the sender find a command with the request's
/// correlation id and stream, the next session id, and the usual log, behind those
/// that it would have found. The ids given out are used up, and the receiver is told
/// nothing.
pub proof fn law_requested_publication_is_passed_on(
    before: ConductorAgent,
    after: ConductorAgent,
    m: ConductorModel,
    n: ConductorModel,
    payload: &[u8],
    now_ns: i64,
)
    requires
        payload@.len() >= 280,
        0 <= wire::i32_at(payload@, 20) <= 256,
        before.channels.fit(m),
        exists|
            agent: &mut ConductorAgent,
            region: &mut [u8],
            to_sender: &mut [u8],
            to_receiver: &mut [u8],
        |
            *agent == before && *final(agent) == after && before.model(
                (*region)@,
                (*to_sender)@,
                (*to_receiver)@,
            ) == m && after.model(
                (*final(region))@,
                (*final(to_sender))@,
                (*final(to_receiver))@,
            ) == n && #[trigger] call_ensures(
                ConductorAgent::process_command,
                (agent, region, to_sender, to_receiver, 1i32, payload, now_ns),
                (),
            ),
    ensures
        n.next_session_id == m.next_session_id.wrapping_add(1),
        n.next_registration_id == m.next_registration_id.wrapping_add(1),
        n.to_receiver == m.to_receiver,
        before.channels.to_sender.claim_of(
            before.channels.to_sender.head(m.to_sender),
            before.channels.to_sender.tail(m.to_sender),
            28,
        ) is Err ==> n.to_sender == m.to_sender,
        has_room(before.channels.to_sender, m.to_sender, 28) ==> {
            let found = sender_commands(before.channels.to_sender.pending(n.to_sender));
            let earlier = sender_commands(before.channels.to_sender.pending(m.to_sender));
            &&& found.len() == earlier.len() + 1
            &&& found.drop_last() == earlier
            &&& found.last() == (SenderCommand::AddPublication {
                correlation_id: wire::i64_at(payload@, 0),
                stream_id: wire::i32_at(payload@, 16),
                session_id: m.next_session_id,
                initial_term_id: 0,
                term_length: 65536,
                mtu: 1408,
            })
        },
{
    let cmd = SenderCommand::AddPublication {
        correlation_id: wire::i64_at(payload@, 0),
        stream_id: wire::i32_at(payload@, 16),
        session_id: m.next_session_id,
        initial_term_id: 0,
        term_length: 65536,
        mtu: 1408,
    };
    assert(cmd.bytes().len() == 28);
    if has_room(before.channels.to_sender, m.to_sender, 28) {
        lemma_sender_is_told(before.channels.to_sender, m.to_sender, cmd);
        let earlier = sender_commands(before.channels.to_sender.pending(m.to_sender));
        assert(earlier.push(cmd).drop_last() =~= earlier);
    }
}

/// A request for a publication is answered with the ids that it got: a client that
/// has read everything before finds one message of type 101, with the request's
/// correlation id, the registration id, the session id that the sender is told too,
/// and the stream.
pub proof fn law_requested_publication_is_answered(
    before: ConductorAgent,
    after: ConductorAgent,
    m: ConductorModel,
    n: ConductorModel,
    rx: broadcast::BroadcastReceiver,
    payload: &[u8],
    now_ns: i64,
)
    requires
        payload@.len() >= 280,
        0 <= wire::i32_at(payload@, 20) <= 256,
        before.channels.fit(m),
        exists|
            agent: &mut ConductorAgent,
            region: &mut [u8],
            to_sender: &mut [u8],
            to_receiver: &mut [u8],
        |
            *agent == before && *final(agent) == after && before.model(
                (*region)@,
                (*to_sender)@,
                (*to_receiver)@,
            ) == m && after.model(
                (*final(region))@,
                (*final(to_sender))@,
                (*final(to_receiver))@,
            ) == n && #[trigger] call_ensures(
                ConductorAgent::process_command,
                (agent, region, to_sender, to_receiver, 1i32, payload, now_ns),
                (),
            ),
        rx.layout == before.channels.cnc.to_clients.layout,
        rx.layout.capacity <= i32::MAX,
        rx.layout.capacity >= 64,
        rx.cursor == rx.layout.tail(m.region),
        rx.cursor as int % 32 == 0,
        broadcast::advance_for(rx.layout, rx.cursor as int, 32) <= rx.layout.capacity,
    ensures
        ({
            let unread = rx.unread(n.region);
            &&& unread.len() == 1
            &&& unread[0].0 == 101
            &&& unread[0].1.len() == 32
            &&& wire::i64_at(unread[0].1, 0) == wire::i64_at(payload@, 0)
            &&& wire::i64_at(unread[0].1, 8) == m.next_registration_id
            &&& wire::i32_at(unread[0].1, 16) == m.next_session_id
            &&& wire::i32_at(unread[0].1, 20) == wire::i32_at(payload@, 16)
            &&& wire::i32_at(unread[0].1, 24) == 0
            &&& wire::i32_at(unread[0].1, 28) == 0
        }),
{
    let ready = PublicationReady {
        correlation_id: wire::i64_at(payload@, 0),
        registration_id: m.next_registration_id,
        session_id: m.next_session_id,
        stream_id: wire::i32_at(payload@, 16),
        position_limit_counter_id: 0,
        channel_status_indicator_id: 0,
    };
    assert(ready.bytes().len() == 32);
    assert(rx.behind(m.region) == 0);
    assert(rx.unread(m.region) =~= Seq::<(i32, Seq<u8>)>::empty());
    broadcast::law_transmit_appends(rx, m.region, RSP_PUBLICATION_READY, ready.bytes());
    command::law_publication_ready_round_trip(ready, ready.bytes());
    assert(wire::splice(ready.bytes(), 0, ready.bytes()) =~= ready.bytes());
}

/// A command to give up a publication reaches the sender with its correlation and
/// registration id, and changes nothing else.
pub proof fn law_removed_publication_is_passed_on(
    before: ConductorAgent,
    after: ConductorAgent,
    m: ConductorModel,
    n: ConductorModel,
    payload: &[u8],
    now_ns: i64,
)
    requires
        payload@.len() >= 24,
        before.channels.fit(m),
        exists|
            agent: &mut ConductorAgent,
            region: &mut [u8],
            to_sender: &mut [u8],
            to_receiver: &mut [u8],
        |
            *agent == before && *final(agent) == after && before.model(
                (*region)@,
                (*to_sender)@,
                (*to_receiver)@,
            ) == m && after.model(
                (*final(region))@,
                (*final(to_sender))@,
                (*final(to_receiver))@,
            ) == n && #[trigger] call_ensures(
                ConductorAgent::process_command,
                (agent, region, to_sender, to_receiver, 2i32, payload, now_ns),
                (),
            ),
    ensures
        n == (ConductorModel { to_sender: n.to_sender, ..m }),
        before.channels.to_sender.claim_of(
            before.channels.to_sender.head(m.to_sender),
            before.channels.to_sender.tail(m.to_sender),
            16,
        ) is Err ==> n.to_sender == m.to_sender,
        has_room(before.channels.to_sender, m.to_sender, 16) ==> {
            let found = sender_commands(before.channels.to_sender.pending(n.to_sender));
            let earlier = sender_commands(before.channels.to_sender.pending(m.to_sender));
            &&& found.len() == earlier.len() + 1
            &&& found.drop_last() == earlier
            &&& found.last() == (SenderCommand::RemovePublication {
                correlation_id: wire::i64_at(payload@, 0),
                registration_id: wire::i64_at(payload@, 16),
            })
        },
{
    let cmd = SenderCommand::RemovePublication {
        correlation_id: wire::i64_at(payload@, 0),
        registration_id: wire::i64_at(payload@, 16),
    };
    assert(cmd.bytes().len() == 16);
    if has_room(before.channels.to_sender, m.to_sender, 16) {
        lemma_sender_is_told(before.channels.to_sender, m.to_sender, cmd);
        let earlier = sender_commands(before.channels.to_sender.pending(m.to_sender));
        assert(earlier.push(cmd).drop_last() =~= earlier);
    }
}

/// A request for a subscription makes the receiver find a command with the request's
/// correlation id and stream, behind those that it would have found. The sender is
/// told nothing, and no id is used up.
pub proof fn law_requested_subscription_is_passed_on(
    before: ConductorAgent,
    after: ConductorAgent,
    m: ConductorModel,
    n: ConductorModel,
    payload: &[u8],
    now_ns: i64,
)
    requires
        payload@.len() >= 280,
        0 <= wire::i32_at(payload@, 20) <= 256,
        before.channels.fit(m),
        exists|
            agent: &mut ConductorAgent,
            region: &mut [u8],
            to_sender: &mut [u8],
            to_receiver: &mut [u8],
        |
            *agent == before && *final(agent) == after && before.model(
                (*region)@,
                (*to_sender)@,
                (*to_receiver)@,
            ) == m && after.model(
                (*final(region))@,
                (*final(to_sender))@,
                (*final(to_receiver))@,
            ) == n && #[trigger] call_ensures(
                ConductorAgent::process_command,
                (agent, region, to_sender, to_receiver, 3i32, payload, now_ns),
                (),
            ),
    ensures
        n.next_session_id == m.next_session_id,
        n.next_registration_id == m.next_registration_id,
        n.to_sender == m.to_sender,
        before.channels.to_receiver.claim_of(
            before.channels.to_receiver.head(m.to_receiver),
            before.channels.to_receiver.tail(m.to_receiver),
            12,
        ) is Err ==> n.to_receiver == m.to_receiver,
        has_room(before.channels.to_receiver, m.to_receiver, 12) ==> {
            let found = receiver_commands(before.channels.to_receiver.pending(n.to_receiver));
            let earlier = receiver_commands(before.channels.to_receiver.pending(m.to_receiver));
            &&& found.len() == earlier.len() + 1
            &&& found.drop_last() == earlier
            &&& found.last() == (ReceiverCommand::AddSubscription {
                correlation_id: wire::i64_at(payload@, 0),
                stream_id: wire::i32_at(payload@, 16),
            })
        },
{
    let cmd = ReceiverCommand::AddSubscription {
        correlation_id: wire::i64_at(payload@, 0),
        stream_id: wire::i32_at(payload@, 16),
    };
    assert(cmd.bytes().len() == 12);
    if has_room(before.channels.to_receiver, m.to_receiver, 12) {
        lemma_receiver_is_told(before.channels.to_receiver, m.to_receiver, cmd);
        let earlier = receiver_commands(before.channels.to_receiver.pending(m.to_receiver));
        assert(earlier.push(cmd).drop_last() =~= earlier);
    }
}

/// A request for a subscription is answered: a client that has read everything
/// before finds one message of type 102, with the request's correlation id.
pub proof fn law_requested_subscription_is_answered(
    before: ConductorAgent,
    after: ConductorAgent,
    m: ConductorModel,
    n: ConductorModel,
    rx: broadcast::BroadcastReceiver,
    payload: &[u8],
    now_ns: i64,
)
    requires
        payload@.len() >= 280,
        0 <= wire::i32_at(payload@, 20) <= 256,
        before.channels.fit(m),
        exists|
            agent: &mut ConductorAgent,
            region: &mut [u8],
            to_sender: &mut [u8],
            to_receiver: &mut [u8],
        |
            *agent == before && *final(agent) == after && before.model(
                (*region)@,
                (*to_sender)@,
                (*to_receiver)@,
            ) == m && after.model(
                (*final(region))@,
                (*final(to_sender))@,
                (*final(to_receiver))@,
            ) == n && #[trigger] call_ensures(
                ConductorAgent::process_command,
                (agent, region, to_sender, to_receiver, 3i32, payload, now_ns),
                (),
            ),
        rx.layout == before.channels.cnc.to_clients.layout,
        rx.layout.capacity <= i32::MAX,
        rx.cursor == rx.layout.tail(m.region),
        rx.cursor as int % 32 == 0,
        broadcast::advance_for(rx.layout, rx.cursor as int, 12) <= rx.layout.capacity,
    ensures
        ({
            let unread = rx.unread(n.region);
            &&& unread.len() == 1
            &&& unread[0].0 == 102
            &&& unread[0].1.len() == 12
            &&& wire::i64_at(unread[0].1, 0) == wire::i64_at(payload@, 0)
            &&& wire::i32_at(unread[0].1, 8) == 0
        }),
{
    let ready = SubscriptionReady {
        correlation_id: wire::i64_at(payload@, 0),
        channel_status_indicator_id: 0,
    };
    assert(ready.bytes().len() == 12);
    assert(rx.behind(m.region) == 0);
    assert(rx.unread(m.region) =~= Seq::<(i32, Seq<u8>)>::empty());
    broadcast::law_transmit_appends(rx, m.region, RSP_SUBSCRIPTION_READY, ready.bytes());
    command::law_subscription_ready_round_trip(ready, ready.bytes());
    assert(wire::splice(ready.bytes(), 0, ready.bytes()) =~= ready.bytes());
}

/// A command to give up a subscription reaches the receiver with its correlation and
/// registration id, and changes nothing else.
pub proof fn law_removed_subscription_is_passed_on(
    before: ConductorAgent,
    after: ConductorAgent,
    m: ConductorModel,
    n: ConductorModel,
    payload: &[u8],
    now_ns: i64,
)
    requires
        payload@.len() >= 24,
        before.channels.fit(m),
        exists|
            agent: &mut ConductorAgent,
            region: &mut [u8],
            to_sender: &mut [u8],
            to_receiver: &mut [u8],
        |
            *agent == before && *final(agent) == after && before.model(
                (*region)@,
                (*to_sender)@,
                (*to_receiver)@,
            ) == m && after.model(
                (*final(region))@,
                (*final(to_sender))@,
                (*final(to_receiver))@,
            ) == n && #[trigger] call_ensures(
                ConductorAgent::process_command,
                (agent, region, to_sender, to_receiver, 4i32, payload, now_ns),
                (),
            ),
    ensures
        n == (ConductorModel { to_receiver: n.to_receiver, ..m }),
        before.channels.to_receiver.claim_of(
            before.channels.to_receiver.head(m.to_receiver),
            before.channels.to_receiver.tail(m.to_receiver),
            16,
        ) is Err ==> n.to_receiver == m.to_receiver,
        has_room(before.channels.to_receiver, m.to_receiver, 16) ==> {
            let found = receiver_commands(before.channels.to_receiver.pending(n.to_receiver));
            let earlier = receiver_commands(before.channels.to_receiver.pending(m.to_receiver));
            &&& found.len() == earlier.len() + 1
            &&& found.drop_last() == earlier
            &&& found.last() == (ReceiverCommand::RemoveSubscription {
                correlation_id: wire::i64_at(payload@, 0),
                registration_id: wire::i64_at(payload@, 16),
            })
        },
{
    let cmd = ReceiverCommand::RemoveSubscription {
        correlation_id: wire::i64_at(payload@, 0),
        registration_id: wire::i64_at(payload@, 16),
    };
    assert(cmd.bytes().len() == 16);
    if has_room(before.channels.to_receiver, m.to_receiver, 16) {
        lemma_receiver_is_told(before.channels.to_receiver, m.to_receiver, cmd);
        let earlier = receiver_commands(before.channels.to_receiver.pending(m.to_receiver));
        assert(earlier.push(cmd).drop_last() =~= earlier);
    }
}

/// The client table holds a live entry of a client.
pub open spec fn is_tracked(clients: Seq<ClientEntry>, client_id: i64, i: int) -> bool {
    &&& 0 <= i < clients.len()
    &&& clients[i].active
    &&& clients[i].client_id == client_id
}

/// A sign of life refreshes the client's entry, the first if there are several, or
/// adds one while the table has room for 64; no other entry changes.
pub open spec fn keeps_alive(
    before: Seq<ClientEntry>,
    after: Seq<ClientEntry>,
    client_id: i64,
    now_ns: i64,
) -> bool {
    &&& forall|i: int|
        #[trigger] is_tracked(before, client_id, i) && (forall|k: int|
            0 <= k < i ==> !#[trigger] is_tracked(before, client_id, k)) ==> {
            &&& after.len() == before.len()
            &&& after[i].client_id == client_id
            &&& after[i].active
            &&& after[i].last_keepalive_ns == now_ns
            &&& forall|k: int| 0 <= k < before.len() && k != i ==> #[trigger] after[k] == before[k]
        }
    &&& (forall|i: int| !#[trigger] is_tracked(before, client_id, i)) ==> {
        &&& before.len() < 64 ==> {
            &&& after.len() == before.len() + 1
            &&& after.drop_last() == before
            &&& after.last().client_id == client_id
            &&& after.last().active
            &&& after.last().last_keepalive_ns == now_ns
        }
        &&& before.len() >= 64 ==> after == before
    }
}

proof fn lemma_touched_keeps_alive(clients: Seq<ClientEntry>, client_id: i64, now_ns: i64)
    ensures
        keeps_alive(clients, touched(clients, client_id, now_ns), client_id, now_ns),
{
    let after = touched(clients, client_id, now_ns);
    lemma_client_index(clients, client_id, 0);
    lemma_client_index_is_first(clients, client_id, 0);
    let at = client_index(clients, client_id, 0);
    assert forall|i: int|
        #[trigger] is_tracked(clients, client_id, i) && (forall|k: int|
            0 <= k < i ==> !#[trigger] is_tracked(clients, client_id, k)) implies {
        &&& after.len() == clients.len()
        &&& after[i].client_id == client_id
        &&& after[i].active
        &&& after[i].last_keepalive_ns == now_ns
        &&& forall|k: int| 0 <= k < clients.len() && k != i ==> #[trigger] after[k] == clients[k]
    } by {
        if at < clients.len() {
            assert(is_tracked(clients, client_id, at));
        }
        assert(at == i);
    }
    if forall|i: int| !#[trigger] is_tracked(clients, client_id, i) {
        assert(!is_tracked(clients, client_id, at));
        assert(at == clients.len());
        if clients.len() < 64 {
            assert(after.drop_last() =~= clients);
        }
    }
}

proof fn lemma_client_index_is_first(clients: Seq<ClientEntry>, client_id: i64, from: int)
    requires
        0 <= from <= clients.len(),
    ensures
        forall|k: int|
            from <= k < client_index(clients, client_id, from) ==> !#[trigger] is_tracked(
                clients,
                client_id,
                k,
            ),
    decreases clients.len() - from,
{
    if from < clients.len() && !(clients[from].active && clients[from].client_id == client_id) {
        lemma_client_index_is_first(clients, client_id, from + 1);
    }
}

/// A keepalive keeps its client alive, and so do requests; a keepalive changes
/// nothing else.
pub proof fn law_keepalive_is_noted(
    before: ConductorAgent,
    after: ConductorAgent,
    m: ConductorModel,
    n: ConductorModel,
    payload: &[u8],
    now_ns: i64,
)
    requires
        payload@.len() >= 16,
        before.channels.fit(m),
        exists|
            agent: &mut ConductorAgent,
            region: &mut [u8],
            to_sender: &mut [u8],
            to_receiver: &mut [u8],
        |
            *agent == before && *final(agent) == after && before.model(
                (*region)@,
                (*to_sender)@,
                (*to_receiver)@,
            ) == m && after.model(
                (*final(region))@,
                (*final(to_sender))@,
                (*final(to_receiver))@,
            ) == n && #[trigger] call_ensures(
                ConductorAgent::process_command,
                (agent, region, to_sender, to_receiver, 5i32, payload, now_ns),
                (),
            ),
    ensures
        keeps_alive(m.clients, n.clients, wire::i64_at(payload@, 8), now_ns),
        n == (ConductorModel { clients: n.clients, ..m }),
{
    lemma_touched_keeps_alive(m.clients, wire::i64_at(payload@, 8), now_ns);
}

/// A request for a publication or a subscription keeps its client alive.
pub proof fn law_request_keeps_client_alive(
    before: ConductorAgent,
    after: ConductorAgent,
    m: ConductorModel,
    n: ConductorModel,
    msg_type: i32,
    payload: &[u8],
    now_ns: i64,
)
    requires
        msg_type == 1 || msg_type == 3,
        payload@.len() >= 280,
        0 <= wire::i32_at(payload@, 20) <= 256,
        before.channels.fit(m),
        exists|
            agent: &mut ConductorAgent,
            region: &mut [u8],
            to_sender: &mut [u8],
            to_receiver: &mut [u8],
        |
            *agent == before && *final(agent) == after && before.model(
                (*region)@,
                (*to_sender)@,
                (*to_receiver)@,
            ) == m && after.model(
                (*final(region))@,
                (*final(to_sender))@,
                (*final(to_receiver))@,
            ) == n && #[trigger] call_ensures(
                ConductorAgent::process_command,
                (agent, region, to_sender, to_receiver, msg_type, payload, now_ns),
                (),
            ),
    ensures
        keeps_alive(m.clients, n.clients, wire::i64_at(payload@, 8), now_ns),
{
    lemma_touched_keeps_alive(m.clients, wire::i64_at(payload@, 8), now_ns);
}

/// Commands of other types, and those that are too short or claim too long a
/// channel, change nothing.
pub proof fn law_other_commands_change_nothing(
    before: ConductorAgent,
    after: ConductorAgent,
    m: ConductorModel,
    n: ConductorModel,
    msg_type: i32,
    payload: &[u8],
    now_ns: i64,
)
    requires
        ({
            ||| msg_type < 1
            ||| msg_type > 5
            ||| (msg_type == 1 || msg_type == 3) && payload@.len() < 280
            ||| (msg_type == 1 || msg_type == 3) && !(0 <= wire::i32_at(payload@, 20) <= 256)
            ||| (msg_type == 2 || msg_type == 4) && payload@.len() < 24
            ||| msg_type == 5 && payload@.len() < 16
        }),
        before.channels.fit(m),
        exists|
            agent: &mut ConductorAgent,
            region: &mut [u8],
            to_sender: &mut [u8],
            to_receiver: &mut [u8],
        |
            *agent == before && *final(agent) == after && before.model(
                (*region)@,
                (*to_sender)@,
                (*to_receiver)@,
            ) == m && after.model(
                (*final(region))@,
                (*final(to_sender))@,
                (*final(to_receiver))@,
            ) == n && #[trigger] call_ensures(
                ConductorAgent::process_command,
                (agent, region, to_sender, to_receiver, msg_type, payload, now_ns),
                (),
            ),
    ensures
        n == m,
{
}

/// A model with each command of a sequence processed, one after the other, on what
/// the ones before left.
pub open spec fn leads_through(
    channels: Channels,
    commands: Seq<(i32, Seq<u8>)>,
    now_ns: i64,
    models: Seq<ConductorModel>,
) -> bool {
    &&& models.len() == commands.len() + 1
    &&& forall|i: int|
        0 <= i < commands.len() ==> #[trigger] models[i + 1] == channels.processed(
            models[i],
            commands[i].0,
            commands[i].1,
            now_ns,
        )
}

/// A duty cycle takes every command that waits, each once and in order, leaves none
/// behind, returns how many there were, and writes the time into the header.
pub proof fn law_cycle_takes_every_command(
    before: ConductorAgent,
    after: ConductorAgent,
    m: ConductorModel,
    n: ConductorModel,
    now_ns: i64,
    now_ms: i64,
    r: i32,
)
    requires
        before.channels.cnc.to_driver.committed(m.region),
        forall|i: int|
            0 <= i < before.channels.cnc.to_driver.pending(m.region).len() ==> (
            #[trigger] before.channels.cnc.to_driver.pending(m.region)[i]).1.len() <= 512,
        before.channels.fit(m),
        exists|
            agent: &mut ConductorAgent,
            region: &mut [u8],
            to_sender: &mut [u8],
            to_receiver: &mut [u8],
        |
            *agent == before && *final(agent) == after && before.model(
                (*region)@,
                (*to_sender)@,
                (*to_receiver)@,
            ) == m && after.model(
                (*final(region))@,
                (*final(to_sender))@,
                (*final(to_receiver))@,
            ) == n && #[trigger] call_ensures(
                ConductorAgent::do_work,
                (agent, region, to_sender, to_receiver, now_ns, now_ms),
                r,
            ),
    ensures
        ({
            let ring = before.channels.cnc.to_driver;
            let commands = ring.pending(m.region);
            &&& r == commands.len()
            &&& exists|models: Seq<ConductorModel>|
                {
                    &&& #[trigger] leads_through(before.channels, commands, now_ns, models)
                    &&& models[0] == (ConductorModel { region: models[0].region, ..m })
                    &&& ring.pending(models[0].region) == Seq::<(i32, Seq<u8>)>::empty()
                    &&& ring.used(models[0].region) == 0
                    &&& n == (ConductorModel { region: n.region, ..models[models.len() - 1] })
                    &&& n.region.len() == models[models.len() - 1].region.len()
                    &&& forall|k: int|
                        0 <= k < n.region.len() && !(16 <= k < 24) ==> #[trigger] n.region[k]
                            == models[models.len() - 1].region[k]
                }
            &&& wire::i64_at(n.region, 16) == now_ms
        }),
{
    let ring = before.channels.cnc.to_driver;
    let commands = ring.pending(m.region);
    let base = ConductorModel { region: before.channels.taken(m.region), ..m };
    let models = Seq::new(
        (commands.len() + 1) as nat,
        |i: int| before.channels.processed_all(base, commands, i, now_ns),
    );
    assert forall|i: int| 0 <= i < commands.len() implies #[trigger] models[i + 1]
        == before.channels.processed(models[i], commands[i].0, commands[i].1, now_ns) by {
        assert(Channels::clipped(commands[i].1) == commands[i].1);
        assert(models[i] == before.channels.processed_all(base, commands, i, now_ns));
        assert(models[i + 1] == before.channels.processed_all(base, commands, i + 1, now_ns));
    }
    assert(leads_through(before.channels, commands, now_ns, models));
    ring_buffer::law_read_drains(ring, m.region);
    lemma_taken_length(before.channels, m.region);
    lemma_processed_all_length(before.channels, base, commands, commands.len() as int, now_ns);
    let done = models[models.len() - 1];
    assert(done == before.channels.processed_all(base, commands, commands.len() as int, now_ns));
    assert forall|i: int| 0 <= i < 8 implies n.region[16 + i] == #[trigger] wire::i64_le(
        now_ms,
    )[i] by {}
    wire::lemma_i64_at_le(n.region, 16, now_ms);
}

/// Processing commands keeps the length of the region.
proof fn lemma_processed_all_length(
    channels: Channels,
    m: ConductorModel,
    commands: Seq<(i32, Seq<u8>)>,
    k: int,
    now_ns: i64,
)
    requires
        channels.cnc.fits(m.region),
    ensures
        channels.processed_all(m, commands, k, now_ns).region.len() == m.region.len(),
    decreases k,
{
    if k > 0 {
        lemma_processed_all_length(channels, m, commands, k - 1, now_ns);
        let before = channels.processed_all(m, commands, k - 1, now_ns);
        let payload = Channels::clipped(commands[k - 1].1);
        let layout = channels.cnc.to_clients.layout;
        let ready = PublicationReady {
            correlation_id: wire::i64_at(payload, 0),
            registration_id: before.next_registration_id,
            session_id: before.next_session_id,
            stream_id: wire::i32_at(payload, 16),
            position_limit_counter_id: 0,
            channel_status_indicator_id: 0,
        };
        let other = SubscriptionReady {
            correlation_id: wire::i64_at(payload, 0),
            channel_status_indicator_id: 0,
        };
        lemma_announced_length(
            channels.cnc.to_clients,
            before.region,
            RSP_PUBLICATION_READY,
            ready.bytes(),
        );
        lemma_announced_length(
            channels.cnc.to_clients,
            before.region,
            RSP_SUBSCRIPTION_READY,
            other.bytes(),
        );
    }
}

proof fn lemma_announced_length(
    tx: BroadcastTransmitter,
    s: Seq<u8>,
    msg_type: i32,
    payload: Seq<u8>,
)
    ensures
        announced(tx, s, msg_type, payload).len() == s.len(),
{
}

/// Messages that encode commands to the sender are decoded to just these commands.
proof fn lemma_sender_commands_of(messages: Seq<(i32, Seq<u8>)>, cmds: Seq<SenderCommand>)
    requires
        messages.len() == cmds.len(),
        forall|i: int|
            0 <= i < cmds.len() ==> #[trigger] messages[i] == (cmds[i].msg_type(), cmds[i].bytes()),
    ensures
        sender_commands(messages) == cmds,
    decreases messages.len(),
{
    if messages.len() > 0 {
        lemma_sender_commands_of(messages.drop_last(), cmds.drop_last());
        let last = cmds.len() - 1;
        assert(messages[last] == (cmds[last].msg_type(), cmds[last].bytes()));
        law_sender_command_round_trip(cmds.last());
        assert(cmds.drop_last().push(cmds.last()) =~= cmds);
    } else {
        assert(sender_commands(messages) =~= cmds);
    }
}

/// Messages that encode commands to the receiver are decoded to just these commands.
proof fn lemma_receiver_commands_of(messages: Seq<(i32, Seq<u8>)>, cmds: Seq<ReceiverCommand>)
    requires
        messages.len() == cmds.len(),
        forall|i: int|
            0 <= i < cmds.len() ==> #[trigger] messages[i] == (cmds[i].msg_type(), cmds[i].bytes()),
    ensures
        receiver_commands(messages) == cmds,
    decreases messages.len(),
{
    if messages.len() > 0 {
        lemma_receiver_commands_of(messages.drop_last(), cmds.drop_last());
        let last = cmds.len() - 1;
        assert(messages[last] == (cmds[last].msg_type(), cmds[last].bytes()));
        law_receiver_command_round_trip(cmds.last());
        assert(cmds.drop_last().push(cmds.last()) =~= cmds);
    } else {
        assert(receiver_commands(messages) =~= cmds);
    }
}

/// The sender gets every command that was queued for it, as it was queued and in
/// order.
pub proof fn law_sender_gets_every_command(
    queue: &SenderCommandQueue,
    s: Seq<u8>,
    t: Seq<u8>,
    earlier: Seq<SenderCommand>,
    got: Seq<SenderCommand>,
    cmds: Seq<SenderCommand>,
    r: i32,
)
    requires
        queue.rb.committed(s),
        queue.rb.fits(s),
        queue.rb.pending(s).len() == cmds.len(),
        forall|i: int|
            0 <= i < cmds.len() ==> #[trigger] queue.rb.pending(s)[i] == (
                cmds[i].msg_type(),
                cmds[i].bytes(),
            ),
        exists|buffer: &mut [u8], commands: &mut Vec<SenderCommand>|
            (*buffer)@ == s && (*final(buffer))@ == t && (*commands)@ == earlier && (*final(commands))@
                == got && #[trigger] call_ensures(
                SenderCommandQueue::poll,
                (queue, buffer, commands),
                r,
            ),
    ensures
        got == earlier + cmds,
        r == cmds.len(),
        queue.rb.pending(t) == Seq::<(i32, Seq<u8>)>::empty(),
{
    lemma_sender_commands_of(queue.rb.pending(s), cmds);
    ring_buffer::law_read_drains(queue.rb, s);
}

/// The receiver gets every command that was queued for it, as it was queued and in
/// order.
pub proof fn law_receiver_gets_every_command(
    queue: &ReceiverCommandQueue,
    s: Seq<u8>,
    t: Seq<u8>,
    earlier: Seq<ReceiverCommand>,
    got: Seq<ReceiverCommand>,
    cmds: Seq<ReceiverCommand>,
    r: i32,
)
    requires
        queue.rb.committed(s),
        queue.rb.fits(s),
        queue.rb.pending(s).len() == cmds.len(),
        forall|i: int|
            0 <= i < cmds.len() ==> #[trigger] queue.rb.pending(s)[i] == (
                cmds[i].msg_type(),
                cmds[i].bytes(),
            ),
        exists|buffer: &mut [u8], commands: &mut Vec<ReceiverCommand>|
            (*buffer)@ == s && (*final(buffer))@ == t && (*commands)@ == earlier && (*final(commands))@
                == got && #[trigger] call_ensures(
                ReceiverCommandQueue::poll,
                (queue, buffer, commands),
                r,
            ),
    ensures
        got == earlier + cmds,
        r == cmds.len(),
        queue.rb.pending(t) == Seq::<(i32, Seq<u8>)>::empty(),
{
    lemma_receiver_commands_of(queue.rb.pending(s), cmds);
    ring_buffer::law_read_drains(queue.rb, s);
}

/// A new conductor gives out ids from 1 on, knows no client, and has empty queues.
pub proof fn law_new_conductor_begins_afresh(
    cnc: DriverCnc,
    driver_timeout_ns: i64,
    r: Result<ConductorParts, RingBufferError>,
)
    requires
        call_ensures(ConductorAgent::new, (cnc, driver_timeout_ns), r),
    ensures
        r matches Ok(parts) && {
            &&& parts.conductor.next_registration_id == 1
            &&& parts.conductor.next_session_id == 1
            &&& parts.conductor.client_count == 0
            &&& parts.conductor.driver_timeout_ns == driver_timeout_ns
            &&& parts.conductor.channels.cnc == cnc
            &&& parts.sender_queue.rb == parts.conductor.channels.to_sender
            &&& parts.receiver_queue.rb == parts.conductor.channels.to_receiver
            &&& parts.sender_queue.rb.capacity == 4096
            &&& parts.receiver_queue.rb.capacity == 4096
            &&& parts.sender_queue.rb.committed(parts.to_sender_buf@)
            &&& parts.receiver_queue.rb.committed(parts.to_receiver_buf@)
            &&& parts.sender_queue.rb.pending(parts.to_sender_buf@).len() == 0
            &&& parts.receiver_queue.rb.pending(parts.to_receiver_buf@).len() == 0
        },
{
    let parts = r->Ok_0;
    ring_buffer::law_new_ring_is_empty(parts.sender_queue.rb, parts.to_sender_buf@);
    ring_buffer::law_new_ring_is_empty(parts.receiver_queue.rb, parts.to_receiver_buf@);
}

/// A message of the queue to the sender stands for a command of its type, each field
/// from its place. One of another type, or too short, stands for none.
pub proof fn law_sender_command_is_read(msg_type: i32, data: &[u8], r: Option<SenderCommand>)
    requires
        call_ensures(decode_sender_cmd, (msg_type, data), r),
    ensures
        msg_type == 1 && data@.len() >= 28 ==> r == Some(
            SenderCommand::AddPublication {
                correlation_id: wire::i64_at(data@, 0),
                stream_id: wire::i32_at(data@, 8),
                session_id: wire::i32_at(data@, 12),
                initial_term_id: wire::i32_at(data@, 16),
                term_length: wire::u32_at(data@, 20),
                mtu: wire::u32_at(data@, 24),
            },
        ),
        msg_type == 2 && data@.len() >= 16 ==> r == Some(
            SenderCommand::RemovePublication {
                correlation_id: wire::i64_at(data@, 0),
                registration_id: wire::i64_at(data@, 8),
            },
        ),
        r is Some ==> (msg_type == 1 && data@.len() >= 28) || (msg_type == 2 && data@.len() >= 16),
{
}

/// What was put down of a command to the sender is read back as that command.
pub proof fn law_sender_command_is_read_back(
    cmd: &SenderCommand,
    before: [u8; 64],
    after: [u8; 64],
    r: (i32, usize),
    data: &[u8],
    read: Option<SenderCommand>,
)
    requires
        exists|buf: &mut [u8; 64]|
            *buf == before && *final(buf) == after && #[trigger] call_ensures(
                encode_sender_cmd,
                (cmd, buf),
                r,
            ),
        data@ == after@.subrange(0, r.1 as int),
        call_ensures(decode_sender_cmd, (r.0, data), read),
    ensures
        cmd is AddPublication ==> r == (1i32, 28usize),
        cmd is RemovePublication ==> r == (2i32, 16usize),
        read == Some(*cmd),
{
    law_sender_command_round_trip(*cmd);
    assert(data@ =~= cmd.bytes());
}

/// A message of the queue to the receiver stands for a command of its type, each field
/// from its place. One of another type, or too short, stands for none.
pub proof fn law_receiver_command_is_read(msg_type: i32, data: &[u8], r: Option<ReceiverCommand>)
    requires
        call_ensures(decode_receiver_cmd, (msg_type, data), r),
    ensures
        msg_type == 1 && data@.len() >= 12 ==> r == Some(
            ReceiverCommand::AddSubscription {
                correlation_id: wire::i64_at(data@, 0),
                stream_id: wire::i32_at(data@, 8),
            },
        ),
        msg_type == 2 && data@.len() >= 16 ==> r == Some(
            ReceiverCommand::RemoveSubscription {
                correlation_id: wire::i64_at(data@, 0),
                registration_id: wire::i64_at(data@, 8),
            },
        ),
        r is Some ==> (msg_type == 1 && data@.len() >= 12) || (msg_type == 2 && data@.len() >= 16),
{
}

/// What was put down of a command to the receiver is read back as that command.
pub proof fn law_receiver_command_is_read_back(
    cmd: &ReceiverCommand,
    before: [u8; 64],
    after: [u8; 64],
    r: (i32, usize),
    data: &[u8],
    read: Option<ReceiverCommand>,
)
    requires
        exists|buf: &mut [u8; 64]|
            *buf == before && *final(buf) == after && #[trigger] call_ensures(
                encode_receiver_cmd,
                (cmd, buf),
                r,
            ),
        data@ == after@.subrange(0, r.1 as int),
        call_ensures(decode_receiver_cmd, (r.0, data), read),
    ensures
        cmd is AddSubscription ==> r == (1i32, 12usize),
        cmd is RemoveSubscription ==> r == (2i32, 16usize),
        read == Some(*cmd),
{
    law_receiver_command_round_trip(*cmd);
    assert(data@ =~= cmd.bytes());
}

/// Name of the agent.
pub proof fn law_conductor_is_known_by_its_name(agent: &ConductorAgent, r: &str)
    requires
        call_ensures(ConductorAgent::name, (agent,), r),
    ensures
        r@ == "aeron-conductor"@,
{
}

} // verus!
