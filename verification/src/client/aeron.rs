//! The client: connects to a running driver, and asks it for publications and
//! subscriptions.
//!
//! Client and driver share a region of memory. The client writes commands to it
//! and reads the driver's heartbeat from it. Sockets and logs stand outside: to
//! add a publication, `begin_publication` says what to make, and
//! `add_publication` takes in what came of it.

use crate::agent::conductor::{Channels, ConductorModel};
use crate::agent::conductor;
use crate::client::bridge;
use crate::client::bridge::PublicationBridge;
use crate::client::publication::{LogCursor, LogParams, Publication};
use crate::client::sub_bridge::RecvEndpointBridge;
use crate::client::subscription::Subscription;
use crate::client::ClientError;
use crate::cnc::cnc_file;
use crate::cnc::cnc_file::{ClientCnc, DriverCnc, CNC_HEADER_LENGTH, CNC_VERSION};
use crate::cnc::command;
use crate::cnc::command::{
    AddPublication, AddSubscription, ClientKeepalive, ADD_PUBLICATION_LENGTH,
    ADD_SUBSCRIPTION_LENGTH, CLIENT_KEEPALIVE_LENGTH, CMD_ADD_PUBLICATION, CMD_ADD_SUBSCRIPTION,
    CMD_CLIENT_CLOSE, CMD_CLIENT_KEEPALIVE, MAX_CHANNEL_URI_LENGTH,
};
use crate::cnc::position;
use crate::cnc::ring_buffer;
use crate::cnc::ring_buffer::{MpscRingBuffer, RingBufferError};
use crate::context::DriverContext;
use crate::frame;
use crate::frame::{SockaddrStorage, SocketAddress};
use crate::wire;
use vstd::arithmetic::power2;
use vstd::prelude::*;
use vstd::utf8;

verus! {

broadcast use wire::lemma_u32_le_len;

/// Age of the driver's heartbeat, in milliseconds, from which on the driver does
/// not count as running.
pub const DEFAULT_DRIVER_TIMEOUT_MS: i64 = 5_000;

/// What the ids of clients are mixed with.
pub const CLIENT_ID_MASK: i64 = 0x1234_5678;

/// What a driver tells its clients of its configuration.
#[derive(Debug, Clone, Copy, PartialEq, Eq, Structural)]
pub struct ClientConfig {
    pub socket_rcvbuf: usize,
    pub socket_sndbuf: usize,
    pub multicast_ttl: u8,
    pub term_length: u32,
    pub mtu: u32,
}

/// A connected client.
#[derive(Debug)]
pub struct Aeron {
    pub cnc: ClientCnc,
    pub client_id: i64,
    pub next_correlation_id: i64,
    pub next_session_id: i32,
    pub config: ClientConfig,
}

/// What to make for a publication.
#[derive(Debug, Clone, Copy)]
pub struct PublicationRequest {
    pub correlation_id: i64,
    /// Of the log that the client and the sender share.
    pub log: LogParams,
    /// Address that the socket is bound to.
    pub local: SocketAddress,
    /// Address that frames go to.
    pub dest: SockaddrStorage,
    /// Of the socket.
    pub transport: DriverContext,
}

/// What came of making a publication's log and socket.
#[derive(Debug)]
pub enum PublicationOutcome<T> {
    /// There is no log with these parameters.
    NoLog,
    /// The socket could not be opened.
    NoTransport,
    /// Both are there: the sender's part of them, and the log's cursor.
    Ready { pending: T, cursor: LogCursor },
}

/// The address that binds to every interface, of the same family as another, with
/// a port of the system's choice.
pub open spec fn is_wildcard(local: SocketAddress, remote: SocketAddress) -> bool {
    &&& (local is V4 <==> remote is V4)
    &&& local.octets() == wire::zeros(local.octets().len())
    &&& local.port() == 0
}

/// The address that binds to every interface, of the same family as another, with
/// a port of the system's choice.
pub fn wildcard(remote: &SocketAddress) -> (r: SocketAddress)
    ensures
        is_wildcard(r, *remote),
{
    let r = match remote {
        SocketAddress::V4 { .. } => SocketAddress::V4 { octets: [0u8; 4], port: 0 },
        SocketAddress::V6 { .. } => SocketAddress::V6 { octets: [0u8; 16], port: 0 },
    };
    assert(r.octets() =~= wire::zeros(r.octets().len()));
    r
}

/// Bytes of a command that asks for a publication or a subscription.
pub open spec fn request_bytes(
    correlation_id: i64,
    client_id: i64,
    stream_id: i32,
    channel: Seq<char>,
) -> Seq<u8> {
    let uri = utf8::encode_utf8(channel);
    wire::i64_le(correlation_id) + wire::i64_le(client_id) + wire::i32_le(stream_id)
        + wire::i32_le(uri.len() as i32) + command::padded_text(uri)
}

/// Bytes of a command that only names a client.
pub open spec fn client_bytes(client_id: i64) -> Seq<u8> {
    ClientKeepalive { correlation_id: 0, client_id }.bytes()
}

/// The channel's URI is short enough to be sent to the driver.
pub open spec fn sendable(channel: Seq<char>) -> bool {
    utf8::encode_utf8(channel).len() <= MAX_CHANNEL_URI_LENGTH
}

impl Aeron {
    /// Connects to the driver that laid a region out, and sends a first keepalive.
    pub fn connect_in_process(region: &mut [u8], now_ms: i64, config: ClientConfig) -> (r: Result<
        Self,
        ClientError,
    >)
        requires
            old(region)@.len() >= CNC_HEADER_LENGTH,
        ensures
            r is Ok <==> Self::connectable(old(region)@, now_ms),
            match r {
                Ok(client) => {
                    &&& client.cnc.fits(old(region)@)
                    &&& client.cnc.to_driver.capacity == cnc_file::to_driver_capacity_of(
                        old(region)@,
                    )
                    &&& client.cnc.to_clients_rx.layout.capacity
                        == cnc_file::to_clients_capacity_of(old(region)@)
                    &&& client.cnc.to_clients_rx.cursor == client.cnc.to_clients_rx.layout.tail(
                        old(region)@,
                    )
                    &&& client.cnc.to_clients_rx.lapped_count == 0
                    &&& client.client_id == (cnc_file::pid_of(old(region)@) as i64)
                        ^ CLIENT_ID_MASK
                    &&& client.next_correlation_id == 1
                    &&& client.next_session_id == 1
                    &&& client.config == config
                    &&& final(region)@ == client.cnc.to_driver.sent(
                        old(region)@,
                        CMD_CLIENT_KEEPALIVE,
                        client_bytes(client.client_id),
                    )
                },
                Err(e) => {
                    &&& final(region)@ == old(region)@
                    &&& e == if Self::opens(old(region)@) {
                        ClientError::DriverNotRunning
                    } else {
                        ClientError::CncError
                    }
                },
            },
    {
        let cnc = match ClientCnc::from_ptr(region) {
            Ok(cnc) => cnc,
            Err(_) => {
                return Err(ClientError::CncError);
            },
        };
        if !cnc.is_driver_alive(region, now_ms, DEFAULT_DRIVER_TIMEOUT_MS) {
            return Err(ClientError::DriverNotRunning);
        }
        let client_id: i64 = cnc.driver_pid(region) as i64 ^ CLIENT_ID_MASK;
        let client = Aeron {
            cnc,
            client_id,
            next_correlation_id: 1,
            next_session_id: 1,
            config,
        };
        client.heartbeat(region);
        Ok(client)
    }

    /// The region is laid out for clients.
    pub open spec fn opens(region: Seq<u8>) -> bool {
        cnc_file::version_of(region) == CNC_VERSION && ClientCnc::usable(region)
    }

    /// The driver's heartbeat is fresh.
    pub open spec fn alive(region: Seq<u8>, now_ms: i64) -> bool {
        now_ms.wrapping_sub(cnc_file::heartbeat_of(region)) < DEFAULT_DRIVER_TIMEOUT_MS
    }

    /// The region is laid out for clients, and its driver runs.
    pub open spec fn connectable(region: Seq<u8>, now_ms: i64) -> bool {
        Self::opens(region) && Self::alive(region, now_ms)
    }

    /// Gives out the next correlation id.
    fn alloc_correlation_id(&mut self) -> (r: i64)
        ensures
            r == old(self).next_correlation_id,
            *final(self) == (Aeron {
                next_correlation_id: old(self).next_correlation_id.wrapping_add(1),
                ..*old(self)
            }),
    {
        let id: i64 = self.next_correlation_id;
        self.next_correlation_id = id.wrapping_add(1);
        id
    }

    /// Gives out the next session id.
    fn alloc_session_id(&mut self) -> (r: i32)
        ensures
            r == old(self).next_session_id,
            *final(self) == (Aeron {
                next_session_id: old(self).next_session_id.wrapping_add(1),
                ..*old(self)
            }),
    {
        let id: i32 = self.next_session_id;
        self.next_session_id = id.wrapping_add(1);
        id
    }

    /// The configuration that the client's sockets are opened with.
    pub open spec fn transport_of(self) -> DriverContext {
        DriverContext {
            socket_rcvbuf: self.config.socket_rcvbuf,
            socket_sndbuf: self.config.socket_sndbuf,
            multicast_ttl: self.config.multicast_ttl,
            mtu_length: self.config.mtu as usize,
            term_buffer_length: self.config.term_length,
            ..DriverContext::standard()
        }
    }

    /// The configuration that the client's sockets are opened with.
    pub fn transport_context(&self) -> (r: DriverContext)
        ensures
            r == self.transport_of(),
    {
        DriverContext {
            socket_rcvbuf: self.config.socket_rcvbuf,
            socket_sndbuf: self.config.socket_sndbuf,
            multicast_ttl: self.config.multicast_ttl,
            mtu_length: self.config.mtu as usize,
            term_buffer_length: self.config.term_length,
            ..DriverContext::default()
        }
    }

    /// Begins to add a publication. `remote` is where the channel's URI leads,
    /// `None` if it cannot be parsed.
    pub fn begin_publication(&mut self, remote: Option<SocketAddress>, stream_id: i32) -> (r:
        Result<PublicationRequest, ClientError>)
        ensures
            match remote {
                None => {
                    &&& r == Err::<PublicationRequest, ClientError>(ClientError::ChannelInvalid)
                    &&& *final(self) == *old(self)
                },
                Some(remote) => {
                    &&& r is Ok
                    &&& r->Ok_0.correlation_id == old(self).next_correlation_id
                    &&& r->Ok_0.log == (LogParams {
                        session_id: old(self).next_session_id,
                        stream_id,
                        initial_term_id: 0,
                        term_length: old(self).config.term_length,
                        mtu: old(self).config.mtu,
                    })
                    &&& is_wildcard(r->Ok_0.local, remote)
                    &&& r->Ok_0.dest.bytes@ == wire::splice(
                        wire::zeros(frame::SOCKADDR_STORAGE_LENGTH as nat),
                        0,
                        remote.kernel_bytes(),
                    )
                    &&& r->Ok_0.transport == old(self).transport_of()
                    &&& *final(self) == (Aeron {
                        next_correlation_id: old(self).next_correlation_id.wrapping_add(1),
                        next_session_id: old(self).next_session_id.wrapping_add(1),
                        ..*old(self)
                    })
                },
            },
    {
        let remote = match remote {
            Some(remote) => remote,
            None => {
                return Err(ClientError::ChannelInvalid);
            },
        };
        let correlation_id: i64 = self.alloc_correlation_id();
        let session_id: i32 = self.alloc_session_id();
        let log = LogParams {
            session_id,
            stream_id,
            initial_term_id: 0,
            term_length: self.config.term_length,
            mtu: self.config.mtu,
        };
        let transport = self.transport_context();
        let (dest, _length) = frame::sockaddr_to_storage(&remote);
        Ok(
            PublicationRequest {
                correlation_id,
                log,
                local: wildcard(&remote),
                dest,
                transport,
            },
        )
    }

    /// Adds a publication: hands the sender its part through the bridge, and tells
    /// the driver, which may miss it for want of room.
    pub fn add_publication<T>(
        &self,
        region: &mut [u8],
        bridge: &mut PublicationBridge<T>,
        request: &PublicationRequest,
        channel: &str,
        outcome: PublicationOutcome<T>,
    ) -> (r: Result<Publication, ClientError>)
        requires
            self.cnc.fits(old(region)@),
            old(bridge).wf(),
        ensures
            final(bridge).wf(),
            r is Ok <==> outcome is Ready && !bridge::is_full(old(bridge).slots@),
            match r {
                Ok(publication) => {
                    &&& publication.registration_id == request.correlation_id
                    &&& publication.params == request.log
                    &&& publication.cursor == outcome->cursor
                    &&& publication.channel_uri.is_of(channel@)
                    &&& forall|i: int| #[trigger]
                        bridge::first_empty(old(bridge).slots@, i) ==> final(bridge).slots@ == old(
                            bridge,
                        ).slots@.update(i, Some(outcome->pending))
                    &&& exists|i: int| #[trigger] bridge::first_empty(old(bridge).slots@, i)
                    &&& bridge::is_deposit(
                        old(bridge).slots@,
                        final(bridge).slots@,
                        outcome->pending,
                        true,
                    )
                    &&& final(region)@ == if sendable(channel@) {
                        self.cnc.to_driver.sent(
                            old(region)@,
                            CMD_ADD_PUBLICATION,
                            request_bytes(
                                request.correlation_id,
                                self.client_id,
                                request.log.stream_id,
                                channel@,
                            ),
                        )
                    } else {
                        old(region)@
                    }
                },
                Err(e) => {
                    &&& e == match outcome {
                        PublicationOutcome::NoLog => ClientError::InvalidParams,
                        PublicationOutcome::NoTransport => ClientError::TransportError,
                        PublicationOutcome::Ready { .. } => ClientError::MaxPublicationsReached,
                    }
                    &&& final(bridge).slots@ == old(bridge).slots@
                    &&& final(region)@ == old(region)@
                },
            },
    {
        let (pending, cursor) = match outcome {
            PublicationOutcome::NoLog => {
                return Err(ClientError::InvalidParams);
            },
            PublicationOutcome::NoTransport => {
                return Err(ClientError::TransportError);
            },
            PublicationOutcome::Ready { pending, cursor } => (pending, cursor),
        };
        if !bridge.deposit(pending) {
            return Err(ClientError::MaxPublicationsReached);
        }
        let _ = self.send_add_publication(
            region,
            request.correlation_id,
            request.log.stream_id,
            channel,
        );
        Ok(Publication::new(request.log, cursor, request.correlation_id, channel))
    }

    /// Tells the driver of a publication.
    fn send_add_publication(
        &self,
        region: &mut [u8],
        correlation_id: i64,
        stream_id: i32,
        channel: &str,
    ) -> (r: Result<(), ClientError>)
        requires
            self.cnc.fits(old(region)@),
        ensures
            !sendable(channel@) ==> r == Err::<(), ClientError>(ClientError::ChannelInvalid)
                && final(region)@ == old(region)@,
            sendable(channel@) ==> final(region)@ == self.cnc.to_driver.sent(
                old(region)@,
                CMD_ADD_PUBLICATION,
                request_bytes(correlation_id, self.client_id, stream_id, channel@),
            ),
            sendable(channel@) ==> r == match self.cnc.to_driver.claim_of(
                self.cnc.to_driver.head(old(region)@),
                self.cnc.to_driver.tail(old(region)@),
                ADD_PUBLICATION_LENGTH as int,
            ) {
                Ok(_) => Ok::<(), ClientError>(()),
                Err(_) => Err(ClientError::RegistrationFailed),
            },
    {
        let cmd = match AddPublication::from_channel(
            correlation_id,
            self.client_id,
            stream_id,
            channel,
        ) {
            Some(cmd) => cmd,
            None => {
                return Err(ClientError::ChannelInvalid);
            },
        };
        let mut buf: [u8; ADD_PUBLICATION_LENGTH] = [0u8; ADD_PUBLICATION_LENGTH];
        let _ = cmd.encode(&mut buf);
        assert(buf@ =~= cmd.bytes());
        assert(cmd.bytes() =~= request_bytes(correlation_id, self.client_id, stream_id, channel@));
        match self.cnc.to_driver.write(region, CMD_ADD_PUBLICATION, &buf) {
            Ok(()) => Ok(()),
            Err(_) => Err(ClientError::RegistrationFailed),
        }
    }

    /// Hands the socket of a subscription to the receiver. `endpoint` is `None` if it
    /// could not be opened.
    pub fn add_receive_endpoint<E>(
        &self,
        bridge: &mut RecvEndpointBridge<E>,
        endpoint: Option<E>,
    ) -> (r: Result<(), ClientError>)
        requires
            old(bridge).wf(),
        ensures
            final(bridge).wf(),
            r == match endpoint {
                None => Err::<(), ClientError>(ClientError::TransportError),
                Some(_) => if bridge::is_full(old(bridge).slots@) {
                    Err(ClientError::MaxSubscriptionsReached)
                } else {
                    Ok(())
                },
            },
            r is Err ==> final(bridge).slots@ == old(bridge).slots@,
            r is Ok ==> {
                &&& exists|i: int| #[trigger] bridge::first_empty(old(bridge).slots@, i)
                &&& forall|i: int| #[trigger]
                    bridge::first_empty(old(bridge).slots@, i) ==> final(bridge).slots@ == old(
                        bridge,
                    ).slots@.update(i, endpoint)
                &&& bridge::is_deposit(
                    old(bridge).slots@,
                    final(bridge).slots@,
                    endpoint->0,
                    true,
                )
            },
    {
        match endpoint {
            None => Err(ClientError::TransportError),
            Some(endpoint) => if bridge.deposit(endpoint) {
                Ok(())
            } else {
                Err(ClientError::MaxSubscriptionsReached)
            },
        }
    }

    /// Adds a subscription: asks the driver for it. Its images come through the
    /// bridge from the receiver.
    pub fn add_subscription<I>(&mut self, region: &mut [u8], channel: &str, stream_id: i32) -> (r:
        Result<Subscription<I>, ClientError>)
        requires
            old(self).cnc.fits(old(region)@),
        ensures
            *final(self) == (Aeron {
                next_correlation_id: old(self).next_correlation_id.wrapping_add(1),
                ..*old(self)
            }),
            r is Ok <==> sendable(channel@) && old(self).cnc.to_driver.claim_of(
                old(self).cnc.to_driver.head(old(region)@),
                old(self).cnc.to_driver.tail(old(region)@),
                ADD_SUBSCRIPTION_LENGTH as int,
            ) is Ok,
            match r {
                Ok(subscription) => {
                    &&& subscription.wf()
                    &&& subscription.registration_id == old(self).next_correlation_id
                    &&& subscription.stream_id == stream_id
                    &&& subscription.channel_uri.is_of(channel@)
                    &&& subscription.images@ == Seq::<I>::empty()
                    &&& final(region)@ == old(self).cnc.to_driver.sent(
                        old(region)@,
                        CMD_ADD_SUBSCRIPTION,
                        request_bytes(
                            old(self).next_correlation_id,
                            old(self).client_id,
                            stream_id,
                            channel@,
                        ),
                    )
                },
                Err(e) => {
                    &&& e == if sendable(channel@) {
                        ClientError::RegistrationFailed
                    } else {
                        ClientError::ChannelInvalid
                    }
                    &&& final(region)@ == old(region)@
                },
            },
    {
        let correlation_id: i64 = self.alloc_correlation_id();
        let cmd = match AddSubscription::from_channel(
            correlation_id,
            self.client_id,
            stream_id,
            channel,
        ) {
            Some(cmd) => cmd,
            None => {
                return Err(ClientError::ChannelInvalid);
            },
        };
        let mut buf: [u8; ADD_SUBSCRIPTION_LENGTH] = [0u8; ADD_SUBSCRIPTION_LENGTH];
        let _ = cmd.encode(&mut buf);
        assert(buf@ =~= cmd.bytes());
        assert(cmd.bytes() =~= request_bytes(correlation_id, self.client_id, stream_id, channel@));
        match self.cnc.to_driver.write(region, CMD_ADD_SUBSCRIPTION, &buf) {
            Ok(()) => Ok(Subscription::new(correlation_id, stream_id, channel)),
            Err(_) => Err(ClientError::RegistrationFailed),
        }
    }

    /// Sends a keepalive to the driver, which may miss it for want of room.
    pub fn heartbeat(&self, region: &mut [u8])
        requires
            self.cnc.fits(old(region)@),
        ensures
            final(region)@ == self.cnc.to_driver.sent(
                old(region)@,
                CMD_CLIENT_KEEPALIVE,
                client_bytes(self.client_id),
            ),
    {
        self.send_client_command(region, CMD_CLIENT_KEEPALIVE);
    }

    /// Tells the driver that the client leaves, which may miss it for want of
    /// room.
    pub fn close(&self, region: &mut [u8])
        requires
            self.cnc.fits(old(region)@),
        ensures
            final(region)@ == self.cnc.to_driver.sent(
                old(region)@,
                CMD_CLIENT_CLOSE,
                client_bytes(self.client_id),
            ),
    {
        self.send_client_command(region, CMD_CLIENT_CLOSE);
    }

    /// Sends a command that only names the client.
    fn send_client_command(&self, region: &mut [u8], msg_type: i32)
        requires
            self.cnc.fits(old(region)@),
        ensures
            final(region)@ == self.cnc.to_driver.sent(
                old(region)@,
                msg_type,
                client_bytes(self.client_id),
            ),
    {
        let cmd = ClientKeepalive { correlation_id: 0, client_id: self.client_id };
        let mut buf: [u8; CLIENT_KEEPALIVE_LENGTH] = [0u8; CLIENT_KEEPALIVE_LENGTH];
        let _ = cmd.encode(&mut buf);
        assert(buf@ =~= client_bytes(self.client_id));
        let _ = self.cnc.to_driver.write(region, msg_type, &buf);
    }

    /// Whether the driver's heartbeat is fresh.
    pub fn is_driver_alive(&self, region: &[u8], now_ms: i64) -> (r: bool)
        requires
            self.cnc.fits(region@),
        ensures
            r == Self::alive(region@, now_ms),
    {
        self.cnc.is_driver_alive(region, now_ms, DEFAULT_DRIVER_TIMEOUT_MS)
    }

    /// Id of the client.
    pub fn client_id(&self) -> (r: i64)
        ensures
            r == self.client_id,
    {
        self.client_id
    }
}

/// A command that a client sends is the last that waits for the driver, behind
/// those that waited already.
pub proof fn law_command_reaches_driver(
    client: ClientCnc,
    driver: DriverCnc,
    region: Seq<u8>,
    claim: ring_buffer::Claim,
    msg_type: i32,
    payload: Seq<u8>,
)
    requires
        client.fits(region),
        driver.fits(region),
        client.to_driver.capacity == driver.to_driver_capacity,
        client.to_driver.capacity <= i64::MAX,
        client.to_driver.storable(region, payload.len() as int),
        driver.to_driver.committed(region),
        msg_type >= 0,
        client.to_driver.claim_of(
            client.to_driver.head(region),
            client.to_driver.tail(region),
            payload.len() as int,
        ) == Ok::<ring_buffer::Claim, RingBufferError>(claim),
    ensures
        ({
            let after = client.to_driver.sent(region, msg_type, payload);
            &&& driver.to_driver.committed(after)
            &&& driver.to_driver.pending(after) == driver.to_driver.pending(region).push(
                (msg_type, payload),
            )
        }),
{
    assert(client.to_driver == driver.to_driver);
    ring_buffer::law_write_appends(client.to_driver, region, claim, msg_type, payload);
}

proof fn lemma_request_fields(
    correlation_id: i64,
    client_id: i64,
    stream_id: i32,
    channel: Seq<char>,
)
    requires
        sendable(channel),
    ensures
        ({
            let s = request_bytes(correlation_id, client_id, stream_id, channel);
            &&& s.len() == 280
            &&& wire::i64_at(s, 0) == correlation_id
            &&& wire::i64_at(s, 8) == client_id
            &&& wire::i32_at(s, 16) == stream_id
            &&& wire::i32_at(s, 20) == utf8::encode_utf8(channel).len()
        }),
{
    let s = request_bytes(correlation_id, client_id, stream_id, channel);
    let length = utf8::encode_utf8(channel).len() as i32;
    assert forall|i: int| 0 <= i < 8 implies s[0 + i] == #[trigger] wire::i64_le(
        correlation_id,
    )[i] by {}
    wire::lemma_i64_at_le(s, 0, correlation_id);
    assert forall|i: int| 0 <= i < 8 implies s[8 + i] == #[trigger] wire::i64_le(client_id)[i] by {}
    wire::lemma_i64_at_le(s, 8, client_id);
    assert forall|i: int| 0 <= i < 4 implies s[16 + i] == #[trigger] wire::i32_le(
        stream_id,
    )[i] by {}
    wire::lemma_i32_at_le(s, 16, stream_id);
    assert forall|i: int| 0 <= i < 4 implies s[20 + i] == #[trigger] wire::i32_le(length)[i] by {}
    wire::lemma_i32_at_le(s, 20, length);
}

/// The driver's conductor understands a client's request for a publication, and
/// adds the publication that the client meant.
pub proof fn law_publication_request_is_understood(
    channels: Channels,
    m: ConductorModel,
    correlation_id: i64,
    client_id: i64,
    stream_id: i32,
    channel: Seq<char>,
    now_ns: i64,
)
    requires
        sendable(channel),
    ensures
        channels.processed(
            m,
            CMD_ADD_PUBLICATION,
            Channels::clipped(request_bytes(correlation_id, client_id, stream_id, channel)),
            now_ns,
        ) == channels.publication_added(m, correlation_id, client_id, stream_id, now_ns),
{
    lemma_request_fields(correlation_id, client_id, stream_id, channel);
}

/// The driver's conductor understands a client's request for a subscription, and
/// adds the subscription that the client meant.
pub proof fn law_subscription_request_is_understood(
    channels: Channels,
    m: ConductorModel,
    correlation_id: i64,
    client_id: i64,
    stream_id: i32,
    channel: Seq<char>,
    now_ns: i64,
)
    requires
        sendable(channel),
    ensures
        channels.processed(
            m,
            CMD_ADD_SUBSCRIPTION,
            Channels::clipped(request_bytes(correlation_id, client_id, stream_id, channel)),
            now_ns,
        ) == channels.subscription_added(m, correlation_id, client_id, stream_id, now_ns),
{
    lemma_request_fields(correlation_id, client_id, stream_id, channel);
}

/// A client's keepalive makes the driver's conductor note that the client is
/// alive, and changes nothing else.
pub proof fn law_keepalive_keeps_client(
    channels: Channels,
    m: ConductorModel,
    client_id: i64,
    now_ns: i64,
)
    ensures
        channels.processed(
            m,
            CMD_CLIENT_KEEPALIVE,
            Channels::clipped(client_bytes(client_id)),
            now_ns,
        ) == (ConductorModel {
            clients: conductor::touched(m.clients, client_id, now_ns),
            ..m
        }),
{
    let s = client_bytes(client_id);
    assert forall|i: int| 0 <= i < 8 implies s[8 + i] == #[trigger] wire::i64_le(client_id)[i] by {}
    wire::lemma_i64_at_le(s, 8, client_id);
}

/// The ring has room for `need` bytes: they are free, and either lie before the
/// end of the ring or the rest up to the end is free as well.
pub open spec fn has_room(ring: MpscRingBuffer, region: Seq<u8>, need: int) -> bool {
    let head = wire::i64_at(region, ring.offset + ring.capacity);
    let tail = wire::i64_at(region, ring.offset + ring.capacity + 64);
    let free = ring.capacity - tail.wrapping_sub(head);
    let room = ring.capacity - tail as int % ring.capacity as int;
    need <= free && (need <= room || room + need <= free)
}

/// A message that the ring has room for waits behind the others, and another is
/// dropped.
proof fn lemma_sent(
    ring: MpscRingBuffer,
    region: Seq<u8>,
    msg_type: i32,
    payload: Seq<u8>,
    need: int,
)
    requires
        ring.fits(region),
        ring.capacity <= i32::MAX,
        ring.committed(region),
        msg_type >= 0,
        payload.len() + 8 <= need < payload.len() + 8 + 32,
        need % 32 == 0,
    ensures
        has_room(ring, region, need) && payload.len() + 8 <= ring.capacity ==> {
            &&& ring.pending(ring.sent(region, msg_type, payload)) == ring.pending(region).push(
                (msg_type, payload),
            )
            &&& ring.committed(ring.sent(region, msg_type, payload))
        },
        !has_room(ring, region, need) || payload.len() + 8 > ring.capacity ==> ring.sent(
            region,
            msg_type,
            payload,
        ) == region,
{
    position::lemma_aligned(payload.len() as int + 8);
    assert(need == position::aligned(payload.len() as int + 8));
    position::lemma_valid_capacity(ring.capacity as int);
    ring_buffer::law_write_is_all_or_nothing(ring, region, msg_type, payload);
}

/// From `before` to `after` a request went to the driver: a message of the given
/// type waits behind the others, 280 bytes with the correlation id at 0, the
/// client's id at 8, the stream at 16, the length of the channel at 20 and the
/// channel from 24 on, zeros behind it.
pub open spec fn is_requested(
    ring: MpscRingBuffer,
    before: Seq<u8>,
    after: Seq<u8>,
    msg_type: i32,
    correlation_id: i64,
    client_id: i64,
    stream_id: i32,
    channel: Seq<char>,
) -> bool {
    let uri = utf8::encode_utf8(channel);
    &&& ring.pending(after).len() == ring.pending(before).len() + 1
    &&& ring.pending(after).drop_last() == ring.pending(before)
    &&& ring.pending(after).last().0 == msg_type
    &&& ring.pending(after).last().1.len() == 280
    &&& wire::i64_at(ring.pending(after).last().1, 0) == correlation_id
    &&& wire::i64_at(ring.pending(after).last().1, 8) == client_id
    &&& wire::i32_at(ring.pending(after).last().1, 16) == stream_id
    &&& wire::i32_at(ring.pending(after).last().1, 20) == uri.len()
    &&& forall|k: int|
        0 <= k < 256 ==> #[trigger] ring.pending(after).last().1[24 + k] == if k < uri.len() {
            uri[k]
        } else {
            0
        }
}

/// From `before` to `after` a sign of the client went to the driver: a message of
/// the given type waits behind the others, 16 bytes with zero at 0 and the client's
/// id at 8.
pub open spec fn is_signalled(
    ring: MpscRingBuffer,
    before: Seq<u8>,
    after: Seq<u8>,
    msg_type: i32,
    client_id: i64,
) -> bool {
    &&& ring.pending(after).len() == ring.pending(before).len() + 1
    &&& ring.pending(after).drop_last() == ring.pending(before)
    &&& ring.pending(after).last().0 == msg_type
    &&& ring.pending(after).last().1.len() == 16
    &&& wire::i64_at(ring.pending(after).last().1, 0) == 0
    &&& wire::i64_at(ring.pending(after).last().1, 8) == client_id
}

proof fn lemma_requested(
    ring: MpscRingBuffer,
    region: Seq<u8>,
    msg_type: i32,
    correlation_id: i64,
    client_id: i64,
    stream_id: i32,
    channel: Seq<char>,
)
    requires
        ring.fits(region),
        288 <= ring.capacity <= i32::MAX,
        ring.committed(region),
        msg_type >= 0,
        sendable(channel),
    ensures
        ({
            let after = ring.sent(
                region,
                msg_type,
                request_bytes(correlation_id, client_id, stream_id, channel),
            );
            &&& has_room(ring, region, 288) ==> is_requested(
                ring,
                region,
                after,
                msg_type,
                correlation_id,
                client_id,
                stream_id,
                channel,
            )
            &&& !has_room(ring, region, 288) ==> after == region
        }),
{
    let payload = request_bytes(correlation_id, client_id, stream_id, channel);
    let uri = utf8::encode_utf8(channel);
    lemma_request_fields(correlation_id, client_id, stream_id, channel);
    lemma_sent(ring, region, msg_type, payload, 288);
    assert forall|k: int| 0 <= k < 256 implies #[trigger] payload[24 + k] == if k < uri.len() {
        uri[k]
    } else {
        0
    } by {}
    assert(ring.pending(region).push((msg_type, payload)).drop_last() =~= ring.pending(region));
}

proof fn lemma_signalled(
    ring: MpscRingBuffer,
    region: Seq<u8>,
    msg_type: i32,
    client_id: i64,
)
    requires
        ring.fits(region),
        ring.capacity <= i32::MAX,
        ring.committed(region),
        msg_type >= 0,
    ensures
        ({
            let after = ring.sent(region, msg_type, client_bytes(client_id));
            &&& has_room(ring, region, 32) ==> is_signalled(
                ring,
                region,
                after,
                msg_type,
                client_id,
            )
            &&& !has_room(ring, region, 32) ==> after == region
        }),
{
    let payload = client_bytes(client_id);
    assert forall|i: int| 0 <= i < 8 implies payload[0 + i] == #[trigger] wire::i64_le(0)[i] by {}
    wire::lemma_i64_at_le(payload, 0, 0);
    assert forall|i: int| 0 <= i < 8 implies payload[8 + i] == #[trigger] wire::i64_le(
        client_id,
    )[i] by {}
    wire::lemma_i64_at_le(payload, 8, client_id);
    lemma_sent(ring, region, msg_type, payload, 32);
    assert(ring.pending(region).push((msg_type, payload)).drop_last() =~= ring.pending(region));
}

/// A client connects exactly to a region of version 1 whose two buffers lie in it
/// and whose last heartbeat is less than 5 seconds ago. It is known by the
/// driver's process id with some bits turned over, counts its requests and
/// sessions from 1, and tells the driver at once that it is there.
pub proof fn law_client_connects_to_a_live_driver(
    before: Seq<u8>,
    after: Seq<u8>,
    now_ms: i64,
    config: ClientConfig,
    r: Result<Aeron, ClientError>,
)
    requires
        before.len() >= 256,
        exists|region: &mut [u8]|
            (*region)@ == before && (*final(region))@ == after && #[trigger] call_ensures(
                Aeron::connect_in_process,
                (region, now_ms, config),
                r,
            ),
    ensures
        ({
            let to_driver = wire::i32_at(before, 8) as int;
            let to_clients = wire::i32_at(before, 12) as int;
            let opens = wire::i32_at(before, 0) == 1 && to_driver >= 32 && power2::is_pow2(
                to_driver,
            ) && to_clients >= 32 && power2::is_pow2(to_clients) && 256 + to_driver + 128
                + to_clients + 128 <= before.len();
            let age = now_ms.wrapping_sub(wire::i64_at(before, 16));
            &&& r is Ok <==> opens && age < 5_000
            &&& !opens ==> r == Err::<Aeron, ClientError>(ClientError::CncError)
            &&& opens && age >= 5_000 ==> r == Err::<Aeron, ClientError>(
                ClientError::DriverNotRunning,
            )
            &&& r is Err ==> after == before
            &&& r matches Ok(client) ==> {
                &&& client.cnc.to_driver.offset == 256
                &&& client.cnc.to_driver.capacity == to_driver
                &&& client.cnc.to_clients_rx.layout.offset == 256 + to_driver + 128
                &&& client.cnc.to_clients_rx.layout.capacity == to_clients
                &&& client.cnc.to_clients_rx.cursor == wire::i64_at(
                    before,
                    256 + to_driver + 128 + to_clients,
                )
                &&& client.client_id == (wire::i32_at(before, 4) as i64) ^ 0x1234_5678
                &&& client.next_correlation_id == 1
                &&& client.next_session_id == 1
                &&& client.config == config
                &&& client.cnc.to_driver.committed(before) && has_room(
                    client.cnc.to_driver,
                    before,
                    32,
                ) ==> is_signalled(client.cnc.to_driver, before, after, 5, client.client_id)
            }
        }),
{
    if let Ok(client) = r {
        let ring = client.cnc.to_driver;
        if ring.committed(before) {
            lemma_signalled(ring, before, 5, client.client_id);
        }
    }
}

/// A sign of life and a farewell reach the driver under their types wherever the
/// ring has room for them, and change nothing otherwise.
pub proof fn law_signs_of_the_client_reach_the_driver(
    client: &Aeron,
    before: Seq<u8>,
    kept: Seq<u8>,
    closed: Seq<u8>,
)
    requires
        client.cnc.fits(before),
        client.cnc.to_driver.capacity <= i32::MAX,
        client.cnc.to_driver.committed(before),
        exists|region: &mut [u8]|
            (*region)@ == before && (*final(region))@ == kept && #[trigger] call_ensures(
                Aeron::heartbeat,
                (client, region),
                (),
            ),
        exists|region: &mut [u8]|
            (*region)@ == before && (*final(region))@ == closed && #[trigger] call_ensures(
                Aeron::close,
                (client, region),
                (),
            ),
    ensures
        has_room(client.cnc.to_driver, before, 32) ==> {
            &&& is_signalled(client.cnc.to_driver, before, kept, 5, client.client_id)
            &&& is_signalled(client.cnc.to_driver, before, closed, 6, client.client_id)
        },
        !has_room(client.cnc.to_driver, before, 32) ==> kept == before && closed == before,
{
    lemma_signalled(client.cnc.to_driver, before, 5, client.client_id);
    lemma_signalled(client.cnc.to_driver, before, 6, client.client_id);
}

/// A client takes its driver for alive exactly while the last heartbeat is less
/// than 5 seconds ago.
pub proof fn law_driver_is_alive_for_its_timeout(
    client: &Aeron,
    region: &[u8],
    now_ms: i64,
    alive: bool,
    id: i64,
)
    requires
        client.cnc.fits(region@),
        call_ensures(Aeron::is_driver_alive, (client, region, now_ms), alive),
        call_ensures(Aeron::client_id, (client,), id),
    ensures
        alive <==> now_ms.wrapping_sub(wire::i64_at(region@, 16)) < 5_000,
        id == client.client_id,
{
}

/// A publication with a remote address is begun under the next correlation id and
/// the next session id, with a log from term 0 on of the client's sizes, a socket
/// at any address and port of the remote address's kind, and the remote address as
/// its destination. Without one it is refused, and nothing is used up.
pub proof fn law_publication_is_begun_under_new_ids(
    before: Aeron,
    after: Aeron,
    remote: Option<SocketAddress>,
    stream_id: i32,
    r: Result<PublicationRequest, ClientError>,
)
    requires
        exists|client: &mut Aeron|
            *client == before && *final(client) == after && #[trigger] call_ensures(
                Aeron::begin_publication,
                (client, remote, stream_id),
                r,
            ),
    ensures
        remote is None ==> r == Err::<PublicationRequest, ClientError>(
            ClientError::ChannelInvalid,
        ) && after == before,
        remote matches Some(to) ==> {
            &&& r is Ok
            &&& r->Ok_0.correlation_id == before.next_correlation_id
            &&& r->Ok_0.log.session_id == before.next_session_id
            &&& r->Ok_0.log.stream_id == stream_id
            &&& r->Ok_0.log.initial_term_id == 0
            &&& r->Ok_0.log.term_length == before.config.term_length
            &&& r->Ok_0.log.mtu == before.config.mtu
            &&& r->Ok_0.local is V4 <==> to is V4
            &&& r->Ok_0.local.port() == 0
            &&& forall|k: int|
                0 <= k < r->Ok_0.local.octets().len() ==> #[trigger] r->Ok_0.local.octets()[k] == 0
            &&& r->Ok_0.transport.socket_rcvbuf == before.config.socket_rcvbuf
            &&& r->Ok_0.transport.socket_sndbuf == before.config.socket_sndbuf
            &&& r->Ok_0.transport.multicast_ttl == before.config.multicast_ttl
            &&& r->Ok_0.transport.mtu_length == before.config.mtu
            &&& r->Ok_0.transport.term_buffer_length == before.config.term_length
            &&& after.next_correlation_id == before.next_correlation_id.wrapping_add(1)
            &&& after.next_session_id == before.next_session_id.wrapping_add(1)
            &&& after.cnc == before.cnc
            &&& after.client_id == before.client_id
            &&& after.config == before.config
        },
        remote matches Some(SocketAddress::V4 { octets, port }) ==> {
            let dest = r->Ok_0.dest.bytes@;
            &&& dest[0] + 0x100 * dest[1] == 2
            &&& 0x100 * dest[2] + dest[3] == port
            &&& forall|k: int| 0 <= k < 4 ==> #[trigger] dest[4 + k] == octets@[k]
        },
        remote matches Some(SocketAddress::V6 { octets, port }) ==> {
            let dest = r->Ok_0.dest.bytes@;
            &&& dest[0] + 0x100 * dest[1] == 10
            &&& 0x100 * dest[2] + dest[3] == port
            &&& forall|k: int| 0 <= k < 16 ==> #[trigger] dest[8 + k] == octets@[k]
        },
{
    if let Some(to) = remote {
        frame::law_sockaddr_round_trip(to);
        let dest = r->Ok_0.dest.bytes@;
        if to is V4 {
            assert forall|k: int| 0 <= k < 4 implies #[trigger] dest[4 + k] == to.octets()[k] by {
                assert(dest.subrange(4, 8)[k] == to.octets()[k]);
            }
        } else {
            assert forall|k: int| 0 <= k < 16 implies #[trigger] dest[8 + k] == to.octets()[k] by {
                assert(dest.subrange(8, 24)[k] == to.octets()[k]);
            }
        }
    }
}

/// A publication whose log and socket were made goes to the sender through the
/// first empty slot and to the driver as a request, and has the ids that it was
/// begun under. Without them, or without an empty slot, it is refused and nothing
/// is sent.
pub proof fn law_publication_is_handed_over<T>(
    client: &Aeron,
    before: Seq<u8>,
    after: Seq<u8>,
    slots: PublicationBridge<T>,
    slots_after: PublicationBridge<T>,
    request: &PublicationRequest,
    channel: &str,
    outcome: PublicationOutcome<T>,
    r: Result<Publication, ClientError>,
)
    requires
        client.cnc.fits(before),
        288 <= client.cnc.to_driver.capacity <= i32::MAX,
        client.cnc.to_driver.committed(before),
        slots.wf(),
        exists|region: &mut [u8], bridge: &mut PublicationBridge<T>|
            (*region)@ == before && (*final(region))@ == after && *bridge == slots && *final(bridge)
                == slots_after && #[trigger] call_ensures(
                Aeron::add_publication::<T>,
                (client, region, bridge, request, channel, outcome),
                r,
            ),
    ensures
        outcome is NoLog ==> r == Err::<Publication, ClientError>(ClientError::InvalidParams),
        outcome is NoTransport ==> r == Err::<Publication, ClientError>(
            ClientError::TransportError,
        ),
        outcome is Ready && bridge::is_full(slots.slots@) ==> r == Err::<Publication, ClientError>(
            ClientError::MaxPublicationsReached,
        ),
        r is Err ==> slots_after.slots@ == slots.slots@ && after == before,
        outcome is Ready && !bridge::is_full(slots.slots@) ==> {
            &&& r is Ok
            &&& r->Ok_0.registration_id == request.correlation_id
            &&& r->Ok_0.params == request.log
            &&& r->Ok_0.cursor == outcome->cursor
            &&& r->Ok_0.channel_uri.is_of(channel@)
            &&& forall|i: int| #[trigger]
                bridge::first_empty(slots.slots@, i) ==> slots_after.slots@ == slots.slots@.update(
                    i,
                    Some(outcome->pending),
                )
            &&& utf8::encode_utf8(channel@).len() <= 256 && has_room(
                client.cnc.to_driver,
                before,
                288,
            ) ==> is_requested(
                client.cnc.to_driver,
                before,
                after,
                1,
                request.correlation_id,
                client.client_id,
                request.log.stream_id,
                channel@,
            )
            &&& utf8::encode_utf8(channel@).len() > 256 || !has_room(
                client.cnc.to_driver,
                before,
                288,
            ) ==> after == before
        },
{
    if sendable(channel@) {
        lemma_requested(
            client.cnc.to_driver,
            before,
            1,
            request.correlation_id,
            client.client_id,
            request.log.stream_id,
            channel@,
        );
    }
}

/// An endpoint that was made goes to the receiver through the first empty slot.
pub proof fn law_endpoint_is_handed_over<E>(
    client: &Aeron,
    slots: RecvEndpointBridge<E>,
    slots_after: RecvEndpointBridge<E>,
    endpoint: Option<E>,
    r: Result<(), ClientError>,
)
    requires
        slots.wf(),
        exists|bridge: &mut RecvEndpointBridge<E>|
            *bridge == slots && *final(bridge) == slots_after && #[trigger] call_ensures(
                Aeron::add_receive_endpoint::<E>,
                (client, bridge, endpoint),
                r,
            ),
    ensures
        endpoint is None ==> r == Err::<(), ClientError>(ClientError::TransportError),
        endpoint is Some && bridge::is_full(slots.slots@) ==> r == Err::<(), ClientError>(
            ClientError::MaxSubscriptionsReached,
        ),
        endpoint is Some && !bridge::is_full(slots.slots@) ==> r is Ok,
        r is Err ==> slots_after.slots@ == slots.slots@,
        r is Ok ==> forall|i: int| #[trigger]
            bridge::first_empty(slots.slots@, i) ==> slots_after.slots@ == slots.slots@.update(
                i,
                endpoint,
            ),
{
}

/// A subscription is made exactly where its channel has at most 256 bytes and the
/// request reaches the driver, under the next correlation id. It has no image yet.
pub proof fn law_subscription_is_requested<I>(
    before: Aeron,
    after: Aeron,
    region: Seq<u8>,
    region_after: Seq<u8>,
    channel: &str,
    stream_id: i32,
    r: Result<Subscription<I>, ClientError>,
)
    requires
        before.cnc.fits(region),
        288 <= before.cnc.to_driver.capacity <= i32::MAX,
        before.cnc.to_driver.committed(region),
        exists|client: &mut Aeron, buffer: &mut [u8]|
            *client == before && *final(client) == after && (*buffer)@ == region && (*final(
                buffer))@ == region_after && #[trigger] call_ensures(
                Aeron::add_subscription::<I>,
                (client, buffer, channel, stream_id),
                r,
            ),
    ensures
        after.next_correlation_id == before.next_correlation_id.wrapping_add(1),
        after.next_session_id == before.next_session_id,
        after.cnc == before.cnc,
        after.client_id == before.client_id,
        after.config == before.config,
        ({
            let short = utf8::encode_utf8(channel@).len() <= 256;
            let room = has_room(before.cnc.to_driver, region, 288);
            &&& r is Ok <==> short && room
            &&& !short ==> r == Err::<Subscription<I>, ClientError>(ClientError::ChannelInvalid)
            &&& short && !room ==> r == Err::<Subscription<I>, ClientError>(
                ClientError::RegistrationFailed,
            )
            &&& r is Err ==> region_after == region
            &&& r matches Ok(sub) ==> {
                &&& sub.registration_id == before.next_correlation_id
                &&& sub.stream_id == stream_id
                &&& sub.channel_uri.is_of(channel@)
                &&& sub.images@.len() == 0
                &&& is_requested(
                    before.cnc.to_driver,
                    region,
                    region_after,
                    3,
                    before.next_correlation_id,
                    before.client_id,
                    stream_id,
                    channel@,
                )
            }
        }),
{
    position::lemma_aligned(288);
    position::lemma_valid_capacity(before.cnc.to_driver.capacity as int);
    if sendable(channel@) {
        lemma_requested(
            before.cnc.to_driver,
            region,
            3,
            before.next_correlation_id,
            before.client_id,
            stream_id,
            channel@,
        );
    }
}

/// The wildcard address of a remote address is of its kind, with all octets and the
/// port at zero.
pub proof fn law_wildcard_is_all_zero(remote: &SocketAddress, r: SocketAddress)
    requires
        call_ensures(wildcard, (remote,), r),
    ensures
        r is V4 <==> *remote is V4,
        r.port() == 0,
        forall|k: int| 0 <= k < r.octets().len() ==> #[trigger] r.octets()[k] == 0,
{
}

/// A client's sockets are made with its own sizes, and otherwise as by default.
pub proof fn law_transport_has_the_clients_sizes(
    client: &Aeron,
    r: DriverContext,
    standard: DriverContext,
)
    requires
        call_ensures(Aeron::transport_context, (client,), r),
        call_ensures(DriverContext::default, (), standard),
    ensures
        r.socket_rcvbuf == client.config.socket_rcvbuf,
        r.socket_sndbuf == client.config.socket_sndbuf,
        r.multicast_ttl == client.config.multicast_ttl,
        r.mtu_length == client.config.mtu,
        r.term_buffer_length == client.config.term_length,
        r == (DriverContext {
            socket_rcvbuf: r.socket_rcvbuf,
            socket_sndbuf: r.socket_sndbuf,
            multicast_ttl: r.multicast_ttl,
            mtu_length: r.mtu_length,
            term_buffer_length: r.term_buffer_length,
            ..standard
        }),
{
}

} // verus!
