//! Commands from clients to the driver and responses back.
//!
//! Commands travel through the to-driver ring buffer, responses through the
//! to-clients broadcast buffer. Every message has a fixed size; all fields are
//! little-endian.

use crate::wire;
use vstd::prelude::*;
use vstd::slice::slice_subrange;
use vstd::utf8;

verus! {

broadcast use wire::lemma_u32_le_len;

/// Add a publication on the given channel and stream.
pub const CMD_ADD_PUBLICATION: i32 = 1;

/// Remove a publication by registration id.
pub const CMD_REMOVE_PUBLICATION: i32 = 2;

/// Add a subscription on the given channel and stream.
pub const CMD_ADD_SUBSCRIPTION: i32 = 3;

/// Remove a subscription by registration id.
pub const CMD_REMOVE_SUBSCRIPTION: i32 = 4;

/// The client is alive.
pub const CMD_CLIENT_KEEPALIVE: i32 = 5;

/// The client disconnects.
pub const CMD_CLIENT_CLOSE: i32 = 6;

/// A publication is ready.
pub const RSP_PUBLICATION_READY: i32 = 101;

/// A subscription is ready.
pub const RSP_SUBSCRIPTION_READY: i32 = 102;

/// A command failed.
pub const RSP_OPERATION_ERROR: i32 = 103;

/// The driver is alive.
pub const RSP_DRIVER_HEARTBEAT: i32 = 104;

/// Longest channel URI, which is stored in place.
pub const MAX_CHANNEL_URI_LENGTH: usize = 256;

/// Longest error text, which is stored in place.
pub const MAX_ERROR_MSG_LENGTH: usize = 256;

/// Bytes of an `AddPublication`.
pub const ADD_PUBLICATION_LENGTH: usize = 280;

/// Bytes of a `RemovePublication`.
pub const REMOVE_PUBLICATION_LENGTH: usize = 24;

/// Bytes of an `AddSubscription`.
pub const ADD_SUBSCRIPTION_LENGTH: usize = 280;

/// Bytes of a `RemoveSubscription`.
pub const REMOVE_SUBSCRIPTION_LENGTH: usize = 24;

/// Bytes of a `ClientKeepalive`.
pub const CLIENT_KEEPALIVE_LENGTH: usize = 16;

/// Bytes of a `PublicationReady`.
pub const PUBLICATION_READY_LENGTH: usize = 32;

/// Bytes of a `SubscriptionReady`.
pub const SUBSCRIPTION_READY_LENGTH: usize = 12;

/// Bytes of an `OperationError`.
pub const OPERATION_ERROR_LENGTH: usize = 272;

pub const ERROR_UNKNOWN_COMMAND: i32 = 1;

pub const ERROR_CHANNEL_PARSE_FAILED: i32 = 2;

pub const ERROR_PUBLICATION_CREATE_FAILED: i32 = 3;

pub const ERROR_SUBSCRIPTION_CREATE_FAILED: i32 = 4;

pub const ERROR_REGISTRATION_NOT_FOUND: i32 = 5;

pub const ERROR_GENERIC: i32 = 100;

/// Calls `core::str::from_utf8`, which is documented to check that the bytes are
/// valid UTF-8 and, if they are, to hand out the same bytes as a string slice.
#[verifier::external_body]
pub(crate) fn str_from_utf8(bytes: &[u8]) -> (r: Option<&str>)
    ensures
        r is Some <==> utf8::valid_utf8(bytes@),
        r matches Some(text) ==> utf8::encode_utf8(text@) == bytes@,
{
    core::str::from_utf8(bytes).ok()
}

/// A text with zeros behind it, up to the length of a text field.
pub open spec fn padded_text(text: Seq<u8>) -> Seq<u8> {
    text + wire::zeros((256 - text.len()) as nat)
}

/// Fills a text field.
pub fn pad_text(text: &[u8]) -> (r: [u8; 256])
    requires
        text@.len() <= 256,
    ensures
        r@ == padded_text(text@),
{
    let mut r: [u8; 256] = [0u8; 256];
    wire::write_bytes(&mut r, 0, text);
    assert(r@ =~= padded_text(text@));
    r
}

/// Copies a text field out of a buffer.
fn text_at(buf: &[u8], off: usize) -> (r: [u8; 256])
    requires
        off + 256 <= buf@.len(),
    ensures
        r@ == buf@.subrange(off as int, off + 256),
{
    assert(off + 256 <= buf.len());
    let mut r: [u8; 256] = [0u8; 256];
    wire::write_bytes(&mut r, 0, slice_subrange(buf, off, off + 256));
    assert(r@ =~= buf@.subrange(off as int, off + 256));
    r
}

/// Command: give up a publication.
///
/// Layout: `[i64 correlation_id | i64 client_id | i64 registration_id]`.
#[derive(Debug, Clone, Copy, PartialEq, Eq, Structural)]
pub struct RemovePublication {
    pub correlation_id: i64,
    pub client_id: i64,
    pub registration_id: i64,
}

impl RemovePublication {
    /// The bytes that encode the message.
    pub open spec fn bytes(self) -> Seq<u8> {
        wire::i64_le(self.correlation_id) + wire::i64_le(self.client_id) + wire::i64_le(self.registration_id)
    }

    /// The message that bytes encode.
    pub open spec fn decoded(s: Seq<u8>) -> Self {
        RemovePublication {
            correlation_id: wire::i64_at(s, 0),
            client_id: wire::i64_at(s, 8),
            registration_id: wire::i64_at(s, 16),
        }
    }

    /// Writes the message at the front of the buffer and returns its length.
    /// `None` if the buffer is too short.
    pub fn encode(&self, buf: &mut [u8]) -> (r: Option<usize>)
        ensures
            old(buf)@.len() < REMOVE_PUBLICATION_LENGTH ==> r is None && final(buf)@ == old(buf)@,
            old(buf)@.len() >= REMOVE_PUBLICATION_LENGTH ==> r == Some(REMOVE_PUBLICATION_LENGTH) && final(buf)@
                == wire::splice(old(buf)@, 0, self.bytes()),
    {
        if buf.len() < REMOVE_PUBLICATION_LENGTH {
            return None;
        }
        wire::write_i64(buf, 0, self.correlation_id);
        wire::write_i64(buf, 8, self.client_id);
        wire::write_i64(buf, 16, self.registration_id);
        assert(buf@ =~= wire::splice(old(buf)@, 0, self.bytes()));
        Some(REMOVE_PUBLICATION_LENGTH)
    }

    /// Reads the message at the front of the buffer, `None` if it is too short.
    pub fn decode(buf: &[u8]) -> (r: Option<Self>)
        ensures
            r == if buf@.len() < REMOVE_PUBLICATION_LENGTH {
                None
            } else {
                Some(Self::decoded(buf@))
            },
    {
        if buf.len() < REMOVE_PUBLICATION_LENGTH {
            return None;
        }
        Some(
            RemovePublication {
                correlation_id: wire::read_i64(buf, 0),
                client_id: wire::read_i64(buf, 8),
                registration_id: wire::read_i64(buf, 16),
            },
        )
    }
}

/// What `RemovePublication::encode` wrote, `RemovePublication::decode` gives back.
pub proof fn law_remove_publication_round_trip(m: RemovePublication, s: Seq<u8>)
    requires
        s.len() >= REMOVE_PUBLICATION_LENGTH,
    ensures
        RemovePublication::decoded(wire::splice(s, 0, m.bytes())) == m,
{
    let t = wire::splice(s, 0, m.bytes());
    assert forall|i: int| 0 <= i < 8 implies t[0 + i] == #[trigger] wire::i64_le(m.correlation_id)[i] by {}
    wire::lemma_i64_at_le(t, 0, m.correlation_id);
    assert forall|i: int| 0 <= i < 8 implies t[8 + i] == #[trigger] wire::i64_le(m.client_id)[i] by {}
    wire::lemma_i64_at_le(t, 8, m.client_id);
    assert forall|i: int| 0 <= i < 8 implies t[16 + i] == #[trigger] wire::i64_le(m.registration_id)[i] by {}
    wire::lemma_i64_at_le(t, 16, m.registration_id);
}

/// Command: give up a subscription.
///
/// Layout: `[i64 correlation_id | i64 client_id | i64 registration_id]`.
#[derive(Debug, Clone, Copy, PartialEq, Eq, Structural)]
pub struct RemoveSubscription {
    pub correlation_id: i64,
    pub client_id: i64,
    pub registration_id: i64,
}

impl RemoveSubscription {
    /// The bytes that encode the message.
    pub open spec fn bytes(self) -> Seq<u8> {
        wire::i64_le(self.correlation_id) + wire::i64_le(self.client_id) + wire::i64_le(self.registration_id)
    }

    /// The message that bytes encode.
    pub open spec fn decoded(s: Seq<u8>) -> Self {
        RemoveSubscription {
            correlation_id: wire::i64_at(s, 0),
            client_id: wire::i64_at(s, 8),
            registration_id: wire::i64_at(s, 16),
        }
    }

    /// Writes the message at the front of the buffer and returns its length.
    /// `None` if the buffer is too short.
    pub fn encode(&self, buf: &mut [u8]) -> (r: Option<usize>)
        ensures
            old(buf)@.len() < REMOVE_SUBSCRIPTION_LENGTH ==> r is None && final(buf)@ == old(buf)@,
            old(buf)@.len() >= REMOVE_SUBSCRIPTION_LENGTH ==> r == Some(REMOVE_SUBSCRIPTION_LENGTH) && final(buf)@
                == wire::splice(old(buf)@, 0, self.bytes()),
    {
        if buf.len() < REMOVE_SUBSCRIPTION_LENGTH {
            return None;
        }
        wire::write_i64(buf, 0, self.correlation_id);
        wire::write_i64(buf, 8, self.client_id);
        wire::write_i64(buf, 16, self.registration_id);
        assert(buf@ =~= wire::splice(old(buf)@, 0, self.bytes()));
        Some(REMOVE_SUBSCRIPTION_LENGTH)
    }

    /// Reads the message at the front of the buffer, `None` if it is too short.
    pub fn decode(buf: &[u8]) -> (r: Option<Self>)
        ensures
            r == if buf@.len() < REMOVE_SUBSCRIPTION_LENGTH {
                None
            } else {
                Some(Self::decoded(buf@))
            },
    {
        if buf.len() < REMOVE_SUBSCRIPTION_LENGTH {
            return None;
        }
        Some(
            RemoveSubscription {
                correlation_id: wire::read_i64(buf, 0),
                client_id: wire::read_i64(buf, 8),
                registration_id: wire::read_i64(buf, 16),
            },
        )
    }
}

/// What `RemoveSubscription::encode` wrote, `RemoveSubscription::decode` gives back.
pub proof fn law_remove_subscription_round_trip(m: RemoveSubscription, s: Seq<u8>)
    requires
        s.len() >= REMOVE_SUBSCRIPTION_LENGTH,
    ensures
        RemoveSubscription::decoded(wire::splice(s, 0, m.bytes())) == m,
{
    let t = wire::splice(s, 0, m.bytes());
    assert forall|i: int| 0 <= i < 8 implies t[0 + i] == #[trigger] wire::i64_le(m.correlation_id)[i] by {}
    wire::lemma_i64_at_le(t, 0, m.correlation_id);
    assert forall|i: int| 0 <= i < 8 implies t[8 + i] == #[trigger] wire::i64_le(m.client_id)[i] by {}
    wire::lemma_i64_at_le(t, 8, m.client_id);
    assert forall|i: int| 0 <= i < 8 implies t[16 + i] == #[trigger] wire::i64_le(m.registration_id)[i] by {}
    wire::lemma_i64_at_le(t, 16, m.registration_id);
}

/// Command: the client is alive.
///
/// Layout: `[i64 correlation_id | i64 client_id]`.
#[derive(Debug, Clone, Copy, PartialEq, Eq, Structural)]
pub struct ClientKeepalive {
    pub correlation_id: i64,
    pub client_id: i64,
}

impl ClientKeepalive {
    /// The bytes that encode the message.
    pub open spec fn bytes(self) -> Seq<u8> {
        wire::i64_le(self.correlation_id) + wire::i64_le(self.client_id)
    }

    /// The message that bytes encode.
    pub open spec fn decoded(s: Seq<u8>) -> Self {
        ClientKeepalive {
            correlation_id: wire::i64_at(s, 0),
            client_id: wire::i64_at(s, 8),
        }
    }

    /// Writes the message at the front of the buffer and returns its length.
    /// `None` if the buffer is too short.
    pub fn encode(&self, buf: &mut [u8]) -> (r: Option<usize>)
        ensures
            old(buf)@.len() < CLIENT_KEEPALIVE_LENGTH ==> r is None && final(buf)@ == old(buf)@,
            old(buf)@.len() >= CLIENT_KEEPALIVE_LENGTH ==> r == Some(CLIENT_KEEPALIVE_LENGTH) && final(buf)@
                == wire::splice(old(buf)@, 0, self.bytes()),
    {
        if buf.len() < CLIENT_KEEPALIVE_LENGTH {
            return None;
        }
        wire::write_i64(buf, 0, self.correlation_id);
        wire::write_i64(buf, 8, self.client_id);
        assert(buf@ =~= wire::splice(old(buf)@, 0, self.bytes()));
        Some(CLIENT_KEEPALIVE_LENGTH)
    }

    /// Reads the message at the front of the buffer, `None` if it is too short.
    pub fn decode(buf: &[u8]) -> (r: Option<Self>)
        ensures
            r == if buf@.len() < CLIENT_KEEPALIVE_LENGTH {
                None
            } else {
                Some(Self::decoded(buf@))
            },
    {
        if buf.len() < CLIENT_KEEPALIVE_LENGTH {
            return None;
        }
        Some(
            ClientKeepalive {
                correlation_id: wire::read_i64(buf, 0),
                client_id: wire::read_i64(buf, 8),
            },
        )
    }
}

/// What `ClientKeepalive::encode` wrote, `ClientKeepalive::decode` gives back.
pub proof fn law_client_keepalive_round_trip(m: ClientKeepalive, s: Seq<u8>)
    requires
        s.len() >= CLIENT_KEEPALIVE_LENGTH,
    ensures
        ClientKeepalive::decoded(wire::splice(s, 0, m.bytes())) == m,
{
    let t = wire::splice(s, 0, m.bytes());
    assert forall|i: int| 0 <= i < 8 implies t[0 + i] == #[trigger] wire::i64_le(m.correlation_id)[i] by {}
    wire::lemma_i64_at_le(t, 0, m.correlation_id);
    assert forall|i: int| 0 <= i < 8 implies t[8 + i] == #[trigger] wire::i64_le(m.client_id)[i] by {}
    wire::lemma_i64_at_le(t, 8, m.client_id);
}

/// Response: a publication is ready.
///
/// Layout: `[i64 correlation_id | i64 registration_id | i32 session_id | i32 stream_id | i32 position_limit_counter_id | i32 channel_status_indicator_id]`.
#[derive(Debug, Clone, Copy, PartialEq, Eq, Structural)]
pub struct PublicationReady {
    pub correlation_id: i64,
    pub registration_id: i64,
    pub session_id: i32,
    pub stream_id: i32,
    pub position_limit_counter_id: i32,
    pub channel_status_indicator_id: i32,
}

impl PublicationReady {
    /// The bytes that encode the message.
    pub open spec fn bytes(self) -> Seq<u8> {
        wire::i64_le(self.correlation_id) + wire::i64_le(self.registration_id) + wire::i32_le(self.session_id) + wire::i32_le(self.stream_id) + wire::i32_le(self.position_limit_counter_id) + wire::i32_le(self.channel_status_indicator_id)
    }

    /// The message that bytes encode.
    pub open spec fn decoded(s: Seq<u8>) -> Self {
        PublicationReady {
            correlation_id: wire::i64_at(s, 0),
            registration_id: wire::i64_at(s, 8),
            session_id: wire::i32_at(s, 16),
            stream_id: wire::i32_at(s, 20),
            position_limit_counter_id: wire::i32_at(s, 24),
            channel_status_indicator_id: wire::i32_at(s, 28),
        }
    }

    /// Writes the message at the front of the buffer and returns its length.
    /// `None` if the buffer is too short.
    pub fn encode(&self, buf: &mut [u8]) -> (r: Option<usize>)
        ensures
            old(buf)@.len() < PUBLICATION_READY_LENGTH ==> r is None && final(buf)@ == old(buf)@,
            old(buf)@.len() >= PUBLICATION_READY_LENGTH ==> r == Some(PUBLICATION_READY_LENGTH) && final(buf)@
                == wire::splice(old(buf)@, 0, self.bytes()),
    {
        if buf.len() < PUBLICATION_READY_LENGTH {
            return None;
        }
        wire::write_i64(buf, 0, self.correlation_id);
        wire::write_i64(buf, 8, self.registration_id);
        wire::write_i32(buf, 16, self.session_id);
        wire::write_i32(buf, 20, self.stream_id);
        wire::write_i32(buf, 24, self.position_limit_counter_id);
        wire::write_i32(buf, 28, self.channel_status_indicator_id);
        assert(buf@ =~= wire::splice(old(buf)@, 0, self.bytes()));
        Some(PUBLICATION_READY_LENGTH)
    }

    /// Reads the message at the front of the buffer, `None` if it is too short.
    pub fn decode(buf: &[u8]) -> (r: Option<Self>)
        ensures
            r == if buf@.len() < PUBLICATION_READY_LENGTH {
                None
            } else {
                Some(Self::decoded(buf@))
            },
    {
        if buf.len() < PUBLICATION_READY_LENGTH {
            return None;
        }
        Some(
            PublicationReady {
                correlation_id: wire::read_i64(buf, 0),
                registration_id: wire::read_i64(buf, 8),
                session_id: wire::read_i32(buf, 16),
                stream_id: wire::read_i32(buf, 20),
                position_limit_counter_id: wire::read_i32(buf, 24),
                channel_status_indicator_id: wire::read_i32(buf, 28),
            },
        )
    }
}

/// What `PublicationReady::encode` wrote, `PublicationReady::decode` gives back.
pub proof fn law_publication_ready_round_trip(m: PublicationReady, s: Seq<u8>)
    requires
        s.len() >= PUBLICATION_READY_LENGTH,
    ensures
        PublicationReady::decoded(wire::splice(s, 0, m.bytes())) == m,
{
    let t = wire::splice(s, 0, m.bytes());
    assert forall|i: int| 0 <= i < 8 implies t[0 + i] == #[trigger] wire::i64_le(m.correlation_id)[i] by {}
    wire::lemma_i64_at_le(t, 0, m.correlation_id);
    assert forall|i: int| 0 <= i < 8 implies t[8 + i] == #[trigger] wire::i64_le(m.registration_id)[i] by {}
    wire::lemma_i64_at_le(t, 8, m.registration_id);
    assert forall|i: int| 0 <= i < 4 implies t[16 + i] == #[trigger] wire::i32_le(m.session_id)[i] by {}
    wire::lemma_i32_at_le(t, 16, m.session_id);
    assert forall|i: int| 0 <= i < 4 implies t[20 + i] == #[trigger] wire::i32_le(m.stream_id)[i] by {}
    wire::lemma_i32_at_le(t, 20, m.stream_id);
    assert forall|i: int| 0 <= i < 4 implies t[24 + i] == #[trigger] wire::i32_le(m.position_limit_counter_id)[i] by {}
    wire::lemma_i32_at_le(t, 24, m.position_limit_counter_id);
    assert forall|i: int| 0 <= i < 4 implies t[28 + i] == #[trigger] wire::i32_le(m.channel_status_indicator_id)[i] by {}
    wire::lemma_i32_at_le(t, 28, m.channel_status_indicator_id);
}

/// Response: a subscription is ready.
///
/// Layout: `[i64 correlation_id | i32 channel_status_indicator_id]`.
#[derive(Debug, Clone, Copy, PartialEq, Eq, Structural)]
pub struct SubscriptionReady {
    pub correlation_id: i64,
    pub channel_status_indicator_id: i32,
}

impl SubscriptionReady {
    /// The bytes that encode the message.
    pub open spec fn bytes(self) -> Seq<u8> {
        wire::i64_le(self.correlation_id) + wire::i32_le(self.channel_status_indicator_id)
    }

    /// The message that bytes encode.
    pub open spec fn decoded(s: Seq<u8>) -> Self {
        SubscriptionReady {
            correlation_id: wire::i64_at(s, 0),
            channel_status_indicator_id: wire::i32_at(s, 8),
        }
    }

    /// Writes the message at the front of the buffer and returns its length.
    /// `None` if the buffer is too short.
    pub fn encode(&self, buf: &mut [u8]) -> (r: Option<usize>)
        ensures
            old(buf)@.len() < SUBSCRIPTION_READY_LENGTH ==> r is None && final(buf)@ == old(buf)@,
            old(buf)@.len() >= SUBSCRIPTION_READY_LENGTH ==> r == Some(SUBSCRIPTION_READY_LENGTH) && final(buf)@
                == wire::splice(old(buf)@, 0, self.bytes()),
    {
        if buf.len() < SUBSCRIPTION_READY_LENGTH {
            return None;
        }
        wire::write_i64(buf, 0, self.correlation_id);
        wire::write_i32(buf, 8, self.channel_status_indicator_id);
        assert(buf@ =~= wire::splice(old(buf)@, 0, self.bytes()));
        Some(SUBSCRIPTION_READY_LENGTH)
    }

    /// Reads the message at the front of the buffer, `None` if it is too short.
    pub fn decode(buf: &[u8]) -> (r: Option<Self>)
        ensures
            r == if buf@.len() < SUBSCRIPTION_READY_LENGTH {
                None
            } else {
                Some(Self::decoded(buf@))
            },
    {
        if buf.len() < SUBSCRIPTION_READY_LENGTH {
            return None;
        }
        Some(
            SubscriptionReady {
                correlation_id: wire::read_i64(buf, 0),
                channel_status_indicator_id: wire::read_i32(buf, 8),
            },
        )
    }
}

/// What `SubscriptionReady::encode` wrote, `SubscriptionReady::decode` gives back.
pub proof fn law_subscription_ready_round_trip(m: SubscriptionReady, s: Seq<u8>)
    requires
        s.len() >= SUBSCRIPTION_READY_LENGTH,
    ensures
        SubscriptionReady::decoded(wire::splice(s, 0, m.bytes())) == m,
{
    let t = wire::splice(s, 0, m.bytes());
    assert forall|i: int| 0 <= i < 8 implies t[0 + i] == #[trigger] wire::i64_le(m.correlation_id)[i] by {}
    wire::lemma_i64_at_le(t, 0, m.correlation_id);
    assert forall|i: int| 0 <= i < 4 implies t[8 + i] == #[trigger] wire::i32_le(m.channel_status_indicator_id)[i] by {}
    wire::lemma_i32_at_le(t, 8, m.channel_status_indicator_id);
}

/// Command: add a publication.
///
/// Layout: `[i64 correlation_id | i64 client_id | i32 stream_id | i32 channel_uri_len | [u8; 256] channel_uri]`.
#[derive(Debug, Clone, Copy)]
pub struct AddPublication {
    pub correlation_id: i64,
    pub client_id: i64,
    pub stream_id: i32,
    pub channel_uri_len: usize,
    pub channel_uri: [u8; MAX_CHANNEL_URI_LENGTH],
}

impl AddPublication {
    /// The bytes that encode the message.
    pub open spec fn bytes(self) -> Seq<u8> {
        wire::i64_le(self.correlation_id) + wire::i64_le(self.client_id) + wire::i32_le(self.stream_id) + wire::i32_le(self.channel_uri_len as i32) + self.channel_uri@
    }

    /// The text bytes that count.
    pub open spec fn text(self) -> Seq<u8> {
        self.channel_uri@.subrange(0, self.channel_uri_len as int)
    }

    /// Bytes encode a message: there are enough of them, and the text length is
    /// within bounds.
    pub open spec fn decodable(s: Seq<u8>) -> bool {
        s.len() >= ADD_PUBLICATION_LENGTH && 0 <= wire::i32_at(s, 20) <= MAX_CHANNEL_URI_LENGTH
    }

    /// The message is the one that bytes encode.
    pub open spec fn is_decoded(self, s: Seq<u8>) -> bool {
        &&& self.correlation_id == wire::i64_at(s, 0)
        &&& self.client_id == wire::i64_at(s, 8)
        &&& self.stream_id == wire::i32_at(s, 16)
        &&& self.channel_uri_len == wire::i32_at(s, 20)
        &&& self.channel_uri@ == s.subrange(24, 24 + MAX_CHANNEL_URI_LENGTH)
    }

    /// Writes the message at the front of the buffer and returns its length.
    /// `None` if the buffer is too short.
    pub fn encode(&self, buf: &mut [u8]) -> (r: Option<usize>)
        ensures
            old(buf)@.len() < ADD_PUBLICATION_LENGTH ==> r is None && final(buf)@ == old(buf)@,
            old(buf)@.len() >= ADD_PUBLICATION_LENGTH ==> r == Some(ADD_PUBLICATION_LENGTH) && final(buf)@
                == wire::splice(old(buf)@, 0, self.bytes()),
    {
        if buf.len() < ADD_PUBLICATION_LENGTH {
            return None;
        }
        #[verifier::truncate]
        let text_len: i32 = self.channel_uri_len as i32;
        wire::write_i64(buf, 0, self.correlation_id);
        wire::write_i64(buf, 8, self.client_id);
        wire::write_i32(buf, 16, self.stream_id);
        wire::write_i32(buf, 20, text_len);
        wire::write_bytes(buf, 24, &self.channel_uri);
        assert(buf@ =~= wire::splice(old(buf)@, 0, self.bytes()));
        Some(ADD_PUBLICATION_LENGTH)
    }

    /// Reads the message at the front of the buffer. `None` if it is too short or
    /// the text length is out of bounds.
    pub fn decode(buf: &[u8]) -> (r: Option<Self>)
        ensures
            r is Some <==> Self::decodable(buf@),
            r matches Some(m) ==> m.is_decoded(buf@),
    {
        if buf.len() < ADD_PUBLICATION_LENGTH {
            return None;
        }
        let text_len: i32 = wire::read_i32(buf, 20);
        if text_len < 0 || text_len > 256 {
            return None;
        }
        Some(
            AddPublication {
                correlation_id: wire::read_i64(buf, 0),
                client_id: wire::read_i64(buf, 8),
                stream_id: wire::read_i32(buf, 16),
                channel_uri_len: text_len as usize,
                channel_uri: text_at(buf, 24),
            },
        )
    }

    /// The channel URI, `None` if it is not UTF-8.
    pub fn channel_str(&self) -> (r: Option<&str>)
        requires
            self.channel_uri_len <= MAX_CHANNEL_URI_LENGTH,
        ensures
            r is Some <==> utf8::valid_utf8(self.text()),
            r matches Some(text) ==> utf8::encode_utf8(text@) == self.text(),
    {
        let text = slice_subrange(self.channel_uri.as_slice(), 0, self.channel_uri_len);
        assert(text@ =~= self.text());
        str_from_utf8(text)
    }

    /// Makes the command for a channel, `None` if its URI is too long.
    pub fn from_channel(correlation_id: i64, client_id: i64, stream_id: i32, channel: &str) -> (r:
        Option<Self>)
        ensures
            r is Some <==> utf8::encode_utf8(channel@).len() <= MAX_CHANNEL_URI_LENGTH,
            r matches Some(m) ==> {
                &&& m.correlation_id == correlation_id
                &&& m.client_id == client_id
                &&& m.stream_id == stream_id
                &&& m.channel_uri_len == utf8::encode_utf8(channel@).len()
                &&& m.channel_uri@ == padded_text(utf8::encode_utf8(channel@))
            },
    {
        let bytes = channel.as_bytes();
        if bytes.len() > MAX_CHANNEL_URI_LENGTH {
            return None;
        }
        Some(
            AddPublication {
                correlation_id,
                client_id,
                stream_id,
                channel_uri_len: bytes.len(),
                channel_uri: pad_text(bytes),
            },
        )
    }
}

/// What `AddPublication::encode` wrote, `AddPublication::decode` gives back.
pub proof fn law_add_publication_round_trip(m: AddPublication, d: AddPublication, s: Seq<u8>)
    requires
        s.len() >= ADD_PUBLICATION_LENGTH,
        m.channel_uri_len <= MAX_CHANNEL_URI_LENGTH,
        d.is_decoded(wire::splice(s, 0, m.bytes())),
    ensures
        AddPublication::decodable(wire::splice(s, 0, m.bytes())),
        d.correlation_id == m.correlation_id,
        d.client_id == m.client_id,
        d.stream_id == m.stream_id,
        d.channel_uri_len == m.channel_uri_len,
        d.channel_uri@ == m.channel_uri@,
        d.text() == m.text(),
{
    let t = wire::splice(s, 0, m.bytes());
    assert forall|i: int| 0 <= i < 8 implies t[0 + i] == #[trigger] wire::i64_le(m.correlation_id)[i] by {}
    wire::lemma_i64_at_le(t, 0, m.correlation_id);
    assert forall|i: int| 0 <= i < 8 implies t[8 + i] == #[trigger] wire::i64_le(m.client_id)[i] by {}
    wire::lemma_i64_at_le(t, 8, m.client_id);
    assert forall|i: int| 0 <= i < 4 implies t[16 + i] == #[trigger] wire::i32_le(m.stream_id)[i] by {}
    wire::lemma_i32_at_le(t, 16, m.stream_id);
    let text_len = m.channel_uri_len as i32;
    assert forall|i: int| 0 <= i < 4 implies t[20 + i] == #[trigger] wire::i32_le(text_len)[i] by {}
    wire::lemma_i32_at_le(t, 20, text_len);
    assert(t.subrange(24, 24 + MAX_CHANNEL_URI_LENGTH) =~= m.channel_uri@);
}

/// Command: add a subscription.
///
/// Layout: `[i64 correlation_id | i64 client_id | i32 stream_id | i32 channel_uri_len | [u8; 256] channel_uri]`.
#[derive(Debug, Clone, Copy)]
pub struct AddSubscription {
    pub correlation_id: i64,
    pub client_id: i64,
    pub stream_id: i32,
    pub channel_uri_len: usize,
    pub channel_uri: [u8; MAX_CHANNEL_URI_LENGTH],
}

impl AddSubscription {
    /// The bytes that encode the message.
    pub open spec fn bytes(self) -> Seq<u8> {
        wire::i64_le(self.correlation_id) + wire::i64_le(self.client_id) + wire::i32_le(self.stream_id) + wire::i32_le(self.channel_uri_len as i32) + self.channel_uri@
    }

    /// The text bytes that count.
    pub open spec fn text(self) -> Seq<u8> {
        self.channel_uri@.subrange(0, self.channel_uri_len as int)
    }

    /// Bytes encode a message: there are enough of them, and the text length is
    /// within bounds.
    pub open spec fn decodable(s: Seq<u8>) -> bool {
        s.len() >= ADD_SUBSCRIPTION_LENGTH && 0 <= wire::i32_at(s, 20) <= MAX_CHANNEL_URI_LENGTH
    }

    /// The message is the one that bytes encode.
    pub open spec fn is_decoded(self, s: Seq<u8>) -> bool {
        &&& self.correlation_id == wire::i64_at(s, 0)
        &&& self.client_id == wire::i64_at(s, 8)
        &&& self.stream_id == wire::i32_at(s, 16)
        &&& self.channel_uri_len == wire::i32_at(s, 20)
        &&& self.channel_uri@ == s.subrange(24, 24 + MAX_CHANNEL_URI_LENGTH)
    }

    /// Writes the message at the front of the buffer and returns its length.
    /// `None` if the buffer is too short.
    pub fn encode(&self, buf: &mut [u8]) -> (r: Option<usize>)
        ensures
            old(buf)@.len() < ADD_SUBSCRIPTION_LENGTH ==> r is None && final(buf)@ == old(buf)@,
            old(buf)@.len() >= ADD_SUBSCRIPTION_LENGTH ==> r == Some(ADD_SUBSCRIPTION_LENGTH) && final(buf)@
                == wire::splice(old(buf)@, 0, self.bytes()),
    {
        if buf.len() < ADD_SUBSCRIPTION_LENGTH {
            return None;
        }
        #[verifier::truncate]
        let text_len: i32 = self.channel_uri_len as i32;
        wire::write_i64(buf, 0, self.correlation_id);
        wire::write_i64(buf, 8, self.client_id);
        wire::write_i32(buf, 16, self.stream_id);
        wire::write_i32(buf, 20, text_len);
        wire::write_bytes(buf, 24, &self.channel_uri);
        assert(buf@ =~= wire::splice(old(buf)@, 0, self.bytes()));
        Some(ADD_SUBSCRIPTION_LENGTH)
    }

    /// Reads the message at the front of the buffer. `None` if it is too short or
    /// the text length is out of bounds.
    pub fn decode(buf: &[u8]) -> (r: Option<Self>)
        ensures
            r is Some <==> Self::decodable(buf@),
            r matches Some(m) ==> m.is_decoded(buf@),
    {
        if buf.len() < ADD_SUBSCRIPTION_LENGTH {
            return None;
        }
        let text_len: i32 = wire::read_i32(buf, 20);
        if text_len < 0 || text_len > 256 {
            return None;
        }
        Some(
            AddSubscription {
                correlation_id: wire::read_i64(buf, 0),
                client_id: wire::read_i64(buf, 8),
                stream_id: wire::read_i32(buf, 16),
                channel_uri_len: text_len as usize,
                channel_uri: text_at(buf, 24),
            },
        )
    }

    /// The channel URI, `None` if it is not UTF-8.
    pub fn channel_str(&self) -> (r: Option<&str>)
        requires
            self.channel_uri_len <= MAX_CHANNEL_URI_LENGTH,
        ensures
            r is Some <==> utf8::valid_utf8(self.text()),
            r matches Some(text) ==> utf8::encode_utf8(text@) == self.text(),
    {
        let text = slice_subrange(self.channel_uri.as_slice(), 0, self.channel_uri_len);
        assert(text@ =~= self.text());
        str_from_utf8(text)
    }

    /// Makes the command for a channel, `None` if its URI is too long.
    pub fn from_channel(correlation_id: i64, client_id: i64, stream_id: i32, channel: &str) -> (r:
        Option<Self>)
        ensures
            r is Some <==> utf8::encode_utf8(channel@).len() <= MAX_CHANNEL_URI_LENGTH,
            r matches Some(m) ==> {
                &&& m.correlation_id == correlation_id
                &&& m.client_id == client_id
                &&& m.stream_id == stream_id
                &&& m.channel_uri_len == utf8::encode_utf8(channel@).len()
                &&& m.channel_uri@ == padded_text(utf8::encode_utf8(channel@))
            },
    {
        let bytes = channel.as_bytes();
        if bytes.len() > MAX_CHANNEL_URI_LENGTH {
            return None;
        }
        Some(
            AddSubscription {
                correlation_id,
                client_id,
                stream_id,
                channel_uri_len: bytes.len(),
                channel_uri: pad_text(bytes),
            },
        )
    }
}

/// What `AddSubscription::encode` wrote, `AddSubscription::decode` gives back.
pub proof fn law_add_subscription_round_trip(m: AddSubscription, d: AddSubscription, s: Seq<u8>)
    requires
        s.len() >= ADD_SUBSCRIPTION_LENGTH,
        m.channel_uri_len <= MAX_CHANNEL_URI_LENGTH,
        d.is_decoded(wire::splice(s, 0, m.bytes())),
    ensures
        AddSubscription::decodable(wire::splice(s, 0, m.bytes())),
        d.correlation_id == m.correlation_id,
        d.client_id == m.client_id,
        d.stream_id == m.stream_id,
        d.channel_uri_len == m.channel_uri_len,
        d.channel_uri@ == m.channel_uri@,
        d.text() == m.text(),
{
    let t = wire::splice(s, 0, m.bytes());
    assert forall|i: int| 0 <= i < 8 implies t[0 + i] == #[trigger] wire::i64_le(m.correlation_id)[i] by {}
    wire::lemma_i64_at_le(t, 0, m.correlation_id);
    assert forall|i: int| 0 <= i < 8 implies t[8 + i] == #[trigger] wire::i64_le(m.client_id)[i] by {}
    wire::lemma_i64_at_le(t, 8, m.client_id);
    assert forall|i: int| 0 <= i < 4 implies t[16 + i] == #[trigger] wire::i32_le(m.stream_id)[i] by {}
    wire::lemma_i32_at_le(t, 16, m.stream_id);
    let text_len = m.channel_uri_len as i32;
    assert forall|i: int| 0 <= i < 4 implies t[20 + i] == #[trigger] wire::i32_le(text_len)[i] by {}
    wire::lemma_i32_at_le(t, 20, text_len);
    assert(t.subrange(24, 24 + MAX_CHANNEL_URI_LENGTH) =~= m.channel_uri@);
}

/// Response: a command failed.
///
/// Layout: `[i64 correlation_id | i32 error_code | i32 error_msg_len | [u8; 256] error_msg]`.
#[derive(Debug, Clone, Copy)]
pub struct OperationError {
    pub correlation_id: i64,
    pub error_code: i32,
    pub error_msg_len: usize,
    pub error_msg: [u8; MAX_ERROR_MSG_LENGTH],
}

impl OperationError {
    /// The bytes that encode the message.
    pub open spec fn bytes(self) -> Seq<u8> {
        wire::i64_le(self.correlation_id) + wire::i32_le(self.error_code) + wire::i32_le(self.error_msg_len as i32) + self.error_msg@
    }

    /// The text bytes that count.
    pub open spec fn text(self) -> Seq<u8> {
        self.error_msg@.subrange(0, self.error_msg_len as int)
    }

    /// Bytes encode a message: there are enough of them, and the text length is
    /// within bounds.
    pub open spec fn decodable(s: Seq<u8>) -> bool {
        s.len() >= OPERATION_ERROR_LENGTH && 0 <= wire::i32_at(s, 12) <= MAX_ERROR_MSG_LENGTH
    }

    /// The message is the one that bytes encode.
    pub open spec fn is_decoded(self, s: Seq<u8>) -> bool {
        &&& self.correlation_id == wire::i64_at(s, 0)
        &&& self.error_code == wire::i32_at(s, 8)
        &&& self.error_msg_len == wire::i32_at(s, 12)
        &&& self.error_msg@ == s.subrange(16, 16 + MAX_ERROR_MSG_LENGTH)
    }

    /// Writes the message at the front of the buffer and returns its length.
    /// `None` if the buffer is too short.
    pub fn encode(&self, buf: &mut [u8]) -> (r: Option<usize>)
        ensures
            old(buf)@.len() < OPERATION_ERROR_LENGTH ==> r is None && final(buf)@ == old(buf)@,
            old(buf)@.len() >= OPERATION_ERROR_LENGTH ==> r == Some(OPERATION_ERROR_LENGTH) && final(buf)@
                == wire::splice(old(buf)@, 0, self.bytes()),
    {
        if buf.len() < OPERATION_ERROR_LENGTH {
            return None;
        }
        #[verifier::truncate]
        let text_len: i32 = self.error_msg_len as i32;
        wire::write_i64(buf, 0, self.correlation_id);
        wire::write_i32(buf, 8, self.error_code);
        wire::write_i32(buf, 12, text_len);
        wire::write_bytes(buf, 16, &self.error_msg);
        assert(buf@ =~= wire::splice(old(buf)@, 0, self.bytes()));
        Some(OPERATION_ERROR_LENGTH)
    }

    /// Reads the message at the front of the buffer. `None` if it is too short or
    /// the text length is out of bounds.
    pub fn decode(buf: &[u8]) -> (r: Option<Self>)
        ensures
            r is Some <==> Self::decodable(buf@),
            r matches Some(m) ==> m.is_decoded(buf@),
    {
        if buf.len() < OPERATION_ERROR_LENGTH {
            return None;
        }
        let text_len: i32 = wire::read_i32(buf, 12);
        if text_len < 0 || text_len > 256 {
            return None;
        }
        Some(
            OperationError {
                correlation_id: wire::read_i64(buf, 0),
                error_code: wire::read_i32(buf, 8),
                error_msg_len: text_len as usize,
                error_msg: text_at(buf, 16),
            },
        )
    }

    /// The error text, `None` if it is not UTF-8.
    pub fn error_str(&self) -> (r: Option<&str>)
        requires
            self.error_msg_len <= MAX_ERROR_MSG_LENGTH,
        ensures
            r is Some <==> utf8::valid_utf8(self.text()),
            r matches Some(text) ==> utf8::encode_utf8(text@) == self.text(),
    {
        let text = slice_subrange(self.error_msg.as_slice(), 0, self.error_msg_len);
        assert(text@ =~= self.text());
        str_from_utf8(text)
    }

    /// Makes the response. A text that is too long is cut off.
    pub fn from_message(correlation_id: i64, error_code: i32, msg: &str) -> (r: Self)
        ensures
            r.correlation_id == correlation_id,
            r.error_code == error_code,
            r.error_msg_len == if utf8::encode_utf8(msg@).len() < MAX_ERROR_MSG_LENGTH {
                utf8::encode_utf8(msg@).len()
            } else {
                MAX_ERROR_MSG_LENGTH as nat
            },
            r.error_msg@ == padded_text(utf8::encode_utf8(msg@).subrange(0, r.error_msg_len as int)),
    {
        let bytes = msg.as_bytes();
        let len: usize = if bytes.len() < MAX_ERROR_MSG_LENGTH {
            bytes.len()
        } else {
            MAX_ERROR_MSG_LENGTH
        };
        OperationError {
            correlation_id,
            error_code,
            error_msg_len: len,
            error_msg: pad_text(slice_subrange(bytes, 0, len)),
        }
    }
}

/// What `OperationError::encode` wrote, `OperationError::decode` gives back.
pub proof fn law_operation_error_round_trip(m: OperationError, d: OperationError, s: Seq<u8>)
    requires
        s.len() >= OPERATION_ERROR_LENGTH,
        m.error_msg_len <= MAX_ERROR_MSG_LENGTH,
        d.is_decoded(wire::splice(s, 0, m.bytes())),
    ensures
        OperationError::decodable(wire::splice(s, 0, m.bytes())),
        d.correlation_id == m.correlation_id,
        d.error_code == m.error_code,
        d.error_msg_len == m.error_msg_len,
        d.error_msg@ == m.error_msg@,
        d.text() == m.text(),
{
    let t = wire::splice(s, 0, m.bytes());
    assert forall|i: int| 0 <= i < 8 implies t[0 + i] == #[trigger] wire::i64_le(m.correlation_id)[i] by {}
    wire::lemma_i64_at_le(t, 0, m.correlation_id);
    assert forall|i: int| 0 <= i < 4 implies t[8 + i] == #[trigger] wire::i32_le(m.error_code)[i] by {}
    wire::lemma_i32_at_le(t, 8, m.error_code);
    let text_len = m.error_msg_len as i32;
    assert forall|i: int| 0 <= i < 4 implies t[12 + i] == #[trigger] wire::i32_le(text_len)[i] by {}
    wire::lemma_i32_at_le(t, 12, text_len);
    assert(t.subrange(16, 16 + MAX_ERROR_MSG_LENGTH) =~= m.error_msg@);
}

/// The channel that a command was made for is the one that it names.
pub proof fn law_channel_is_kept(channel: &str, m: AddPublication)
    requires
        m.channel_uri_len == utf8::encode_utf8(channel@).len(),
        utf8::encode_utf8(channel@).len() <= MAX_CHANNEL_URI_LENGTH,
        m.channel_uri@ == padded_text(utf8::encode_utf8(channel@)),
    ensures
        m.text() == utf8::encode_utf8(channel@),
        utf8::valid_utf8(m.text()),
        utf8::decode_utf8(m.text()) == channel@,
{
    assert(m.text() =~= utf8::encode_utf8(channel@));
    utf8::encode_utf8_valid_utf8(channel@);
    utf8::encode_utf8_decode_utf8(channel@);
}

/// An error text that fits is kept whole.
pub proof fn law_error_text_is_kept(msg: &str, m: OperationError)
    requires
        utf8::encode_utf8(msg@).len() <= MAX_ERROR_MSG_LENGTH,
        m.error_msg_len == utf8::encode_utf8(msg@).len(),
        m.error_msg@ == padded_text(utf8::encode_utf8(msg@).subrange(0, m.error_msg_len as int)),
    ensures
        m.text() == utf8::encode_utf8(msg@),
        utf8::valid_utf8(m.text()),
        utf8::decode_utf8(m.text()) == msg@,
{
    assert(m.text() =~= utf8::encode_utf8(msg@));
    utf8::encode_utf8_valid_utf8(msg@);
    utf8::encode_utf8_decode_utf8(msg@);
}

/// The bytes of a request to remove a publication: each field at its place in the first 24 bytes, and
/// nothing else touched. A buffer that is shorter is left alone.
pub proof fn law_remove_publication_is_laid_out(
    m: &RemovePublication,
    before: Seq<u8>,
    after: Seq<u8>,
    r: Option<usize>,
)
    requires
        exists|buf: &mut [u8]|
            (*buf)@ == before && (*final(buf))@ == after && #[trigger] call_ensures(
                RemovePublication::encode,
                (m, buf),
                r,
            ),
    ensures
        before.len() < 24 ==> r is None && after == before,
        before.len() >= 24 ==> {
            &&& r == Some(24usize)
            &&& after.len() == before.len()
            &&& wire::i64_at(after, 0) == m.correlation_id
            &&& wire::i64_at(after, 8) == m.client_id
            &&& wire::i64_at(after, 16) == m.registration_id
            &&& forall|k: int| 24 <= k < before.len() ==> #[trigger] after[k] == before[k]
        },
{
    if before.len() >= 24 {
        assert forall|i: int| 0 <= i < 8 implies after[0 + i] == #[trigger] wire::i64_le(
            m.correlation_id,
        )[i] by {}
        wire::lemma_i64_at_le(after, 0, m.correlation_id);
        assert forall|i: int| 0 <= i < 8 implies after[8 + i] == #[trigger] wire::i64_le(
            m.client_id,
        )[i] by {}
        wire::lemma_i64_at_le(after, 8, m.client_id);
        assert forall|i: int| 0 <= i < 8 implies after[16 + i] == #[trigger] wire::i64_le(
            m.registration_id,
        )[i] by {}
        wire::lemma_i64_at_le(after, 16, m.registration_id);
    }
}

/// From 24 bytes or more a request to remove a publication is read, each field from its place; from fewer
/// nothing.
pub proof fn law_remove_publication_is_read(buf: &[u8], r: Option<RemovePublication>)
    requires
        call_ensures(RemovePublication::decode, (buf,), r),
    ensures
        r is Some <==> buf@.len() >= 24,
        r matches Some(m) ==> {
            &&& m.correlation_id == wire::i64_at(buf@, 0)
            &&& m.client_id == wire::i64_at(buf@, 8)
            &&& m.registration_id == wire::i64_at(buf@, 16)
        },
{
}

/// The bytes of a request to remove a subscription: each field at its place in the first 24 bytes, and
/// nothing else touched. A buffer that is shorter is left alone.
pub proof fn law_remove_subscription_is_laid_out(
    m: &RemoveSubscription,
    before: Seq<u8>,
    after: Seq<u8>,
    r: Option<usize>,
)
    requires
        exists|buf: &mut [u8]|
            (*buf)@ == before && (*final(buf))@ == after && #[trigger] call_ensures(
                RemoveSubscription::encode,
                (m, buf),
                r,
            ),
    ensures
        before.len() < 24 ==> r is None && after == before,
        before.len() >= 24 ==> {
            &&& r == Some(24usize)
            &&& after.len() == before.len()
            &&& wire::i64_at(after, 0) == m.correlation_id
            &&& wire::i64_at(after, 8) == m.client_id
            &&& wire::i64_at(after, 16) == m.registration_id
            &&& forall|k: int| 24 <= k < before.len() ==> #[trigger] after[k] == before[k]
        },
{
    if before.len() >= 24 {
        assert forall|i: int| 0 <= i < 8 implies after[0 + i] == #[trigger] wire::i64_le(
            m.correlation_id,
        )[i] by {}
        wire::lemma_i64_at_le(after, 0, m.correlation_id);
        assert forall|i: int| 0 <= i < 8 implies after[8 + i] == #[trigger] wire::i64_le(
            m.client_id,
        )[i] by {}
        wire::lemma_i64_at_le(after, 8, m.client_id);
        assert forall|i: int| 0 <= i < 8 implies after[16 + i] == #[trigger] wire::i64_le(
            m.registration_id,
        )[i] by {}
        wire::lemma_i64_at_le(after, 16, m.registration_id);
    }
}

/// From 24 bytes or more a request to remove a subscription is read, each field from its place; from fewer
/// nothing.
pub proof fn law_remove_subscription_is_read(buf: &[u8], r: Option<RemoveSubscription>)
    requires
        call_ensures(RemoveSubscription::decode, (buf,), r),
    ensures
        r is Some <==> buf@.len() >= 24,
        r matches Some(m) ==> {
            &&& m.correlation_id == wire::i64_at(buf@, 0)
            &&& m.client_id == wire::i64_at(buf@, 8)
            &&& m.registration_id == wire::i64_at(buf@, 16)
        },
{
}

/// The bytes of a sign of life: each field at its place in the first 16 bytes, and
/// nothing else touched. A buffer that is shorter is left alone.
pub proof fn law_client_keepalive_is_laid_out(
    m: &ClientKeepalive,
    before: Seq<u8>,
    after: Seq<u8>,
    r: Option<usize>,
)
    requires
        exists|buf: &mut [u8]|
            (*buf)@ == before && (*final(buf))@ == after && #[trigger] call_ensures(
                ClientKeepalive::encode,
                (m, buf),
                r,
            ),
    ensures
        before.len() < 16 ==> r is None && after == before,
        before.len() >= 16 ==> {
            &&& r == Some(16usize)
            &&& after.len() == before.len()
            &&& wire::i64_at(after, 0) == m.correlation_id
            &&& wire::i64_at(after, 8) == m.client_id
            &&& forall|k: int| 16 <= k < before.len() ==> #[trigger] after[k] == before[k]
        },
{
    if before.len() >= 16 {
        assert forall|i: int| 0 <= i < 8 implies after[0 + i] == #[trigger] wire::i64_le(
            m.correlation_id,
        )[i] by {}
        wire::lemma_i64_at_le(after, 0, m.correlation_id);
        assert forall|i: int| 0 <= i < 8 implies after[8 + i] == #[trigger] wire::i64_le(
            m.client_id,
        )[i] by {}
        wire::lemma_i64_at_le(after, 8, m.client_id);
    }
}

/// From 16 bytes or more a sign of life is read, each field from its place; from fewer
/// nothing.
pub proof fn law_client_keepalive_is_read(buf: &[u8], r: Option<ClientKeepalive>)
    requires
        call_ensures(ClientKeepalive::decode, (buf,), r),
    ensures
        r is Some <==> buf@.len() >= 16,
        r matches Some(m) ==> {
            &&& m.correlation_id == wire::i64_at(buf@, 0)
            &&& m.client_id == wire::i64_at(buf@, 8)
        },
{
}

/// The bytes of the answer to a publication: each field at its place in the first 32 bytes, and
/// nothing else touched. A buffer that is shorter is left alone.
pub proof fn law_publication_ready_is_laid_out(
    m: &PublicationReady,
    before: Seq<u8>,
    after: Seq<u8>,
    r: Option<usize>,
)
    requires
        exists|buf: &mut [u8]|
            (*buf)@ == before && (*final(buf))@ == after && #[trigger] call_ensures(
                PublicationReady::encode,
                (m, buf),
                r,
            ),
    ensures
        before.len() < 32 ==> r is None && after == before,
        before.len() >= 32 ==> {
            &&& r == Some(32usize)
            &&& after.len() == before.len()
            &&& wire::i64_at(after, 0) == m.correlation_id
            &&& wire::i64_at(after, 8) == m.registration_id
            &&& wire::i32_at(after, 16) == m.session_id
            &&& wire::i32_at(after, 20) == m.stream_id
            &&& wire::i32_at(after, 24) == m.position_limit_counter_id
            &&& wire::i32_at(after, 28) == m.channel_status_indicator_id
            &&& forall|k: int| 32 <= k < before.len() ==> #[trigger] after[k] == before[k]
        },
{
    if before.len() >= 32 {
        assert forall|i: int| 0 <= i < 8 implies after[0 + i] == #[trigger] wire::i64_le(
            m.correlation_id,
        )[i] by {}
        wire::lemma_i64_at_le(after, 0, m.correlation_id);
        assert forall|i: int| 0 <= i < 8 implies after[8 + i] == #[trigger] wire::i64_le(
            m.registration_id,
        )[i] by {}
        wire::lemma_i64_at_le(after, 8, m.registration_id);
        assert forall|i: int| 0 <= i < 4 implies after[16 + i] == #[trigger] wire::i32_le(
            m.session_id,
        )[i] by {}
        wire::lemma_i32_at_le(after, 16, m.session_id);
        assert forall|i: int| 0 <= i < 4 implies after[20 + i] == #[trigger] wire::i32_le(
            m.stream_id,
        )[i] by {}
        wire::lemma_i32_at_le(after, 20, m.stream_id);
        assert forall|i: int| 0 <= i < 4 implies after[24 + i] == #[trigger] wire::i32_le(
            m.position_limit_counter_id,
        )[i] by {}
        wire::lemma_i32_at_le(after, 24, m.position_limit_counter_id);
        assert forall|i: int| 0 <= i < 4 implies after[28 + i] == #[trigger] wire::i32_le(
            m.channel_status_indicator_id,
        )[i] by {}
        wire::lemma_i32_at_le(after, 28, m.channel_status_indicator_id);
    }
}

/// From 32 bytes or more the answer to a publication is read, each field from its place; from fewer
/// nothing.
pub proof fn law_publication_ready_is_read(buf: &[u8], r: Option<PublicationReady>)
    requires
        call_ensures(PublicationReady::decode, (buf,), r),
    ensures
        r is Some <==> buf@.len() >= 32,
        r matches Some(m) ==> {
            &&& m.correlation_id == wire::i64_at(buf@, 0)
            &&& m.registration_id == wire::i64_at(buf@, 8)
            &&& m.session_id == wire::i32_at(buf@, 16)
            &&& m.stream_id == wire::i32_at(buf@, 20)
            &&& m.position_limit_counter_id == wire::i32_at(buf@, 24)
            &&& m.channel_status_indicator_id == wire::i32_at(buf@, 28)
        },
{
}

/// The bytes of the answer to a subscription: each field at its place in the first 12 bytes, and
/// nothing else touched. A buffer that is shorter is left alone.
pub proof fn law_subscription_ready_is_laid_out(
    m: &SubscriptionReady,
    before: Seq<u8>,
    after: Seq<u8>,
    r: Option<usize>,
)
    requires
        exists|buf: &mut [u8]|
            (*buf)@ == before && (*final(buf))@ == after && #[trigger] call_ensures(
                SubscriptionReady::encode,
                (m, buf),
                r,
            ),
    ensures
        before.len() < 12 ==> r is None && after == before,
        before.len() >= 12 ==> {
            &&& r == Some(12usize)
            &&& after.len() == before.len()
            &&& wire::i64_at(after, 0) == m.correlation_id
            &&& wire::i32_at(after, 8) == m.channel_status_indicator_id
            &&& forall|k: int| 12 <= k < before.len() ==> #[trigger] after[k] == before[k]
        },
{
    if before.len() >= 12 {
        assert forall|i: int| 0 <= i < 8 implies after[0 + i] == #[trigger] wire::i64_le(
            m.correlation_id,
        )[i] by {}
        wire::lemma_i64_at_le(after, 0, m.correlation_id);
        assert forall|i: int| 0 <= i < 4 implies after[8 + i] == #[trigger] wire::i32_le(
            m.channel_status_indicator_id,
        )[i] by {}
        wire::lemma_i32_at_le(after, 8, m.channel_status_indicator_id);
    }
}

/// From 12 bytes or more the answer to a subscription is read, each field from its place; from fewer
/// nothing.
pub proof fn law_subscription_ready_is_read(buf: &[u8], r: Option<SubscriptionReady>)
    requires
        call_ensures(SubscriptionReady::decode, (buf,), r),
    ensures
        r is Some <==> buf@.len() >= 12,
        r matches Some(m) ==> {
            &&& m.correlation_id == wire::i64_at(buf@, 0)
            &&& m.channel_status_indicator_id == wire::i32_at(buf@, 8)
        },
{
}

/// The bytes of a request for a publication: each field at its place, the length of the text and then its
/// 256 bytes, and nothing else touched. A buffer of under 280 bytes is left
/// alone.
pub proof fn law_add_publication_is_laid_out(
    m: &AddPublication,
    before: Seq<u8>,
    after: Seq<u8>,
    r: Option<usize>,
)
    requires
        m.channel_uri_len <= 256,
        exists|buf: &mut [u8]|
            (*buf)@ == before && (*final(buf))@ == after && #[trigger] call_ensures(
                AddPublication::encode,
                (m, buf),
                r,
            ),
    ensures
        before.len() < 280 ==> r is None && after == before,
        before.len() >= 280 ==> {
            &&& r == Some(280usize)
            &&& after.len() == before.len()
            &&& wire::i64_at(after, 0) == m.correlation_id
            &&& wire::i64_at(after, 8) == m.client_id
            &&& wire::i32_at(after, 16) == m.stream_id
            &&& wire::i32_at(after, 20) == m.channel_uri_len
            &&& forall|k: int| 0 <= k < 256 ==> #[trigger] after[24 + k] == m.channel_uri@[k]
            &&& forall|k: int| 280 <= k < before.len() ==> #[trigger] after[k] == before[k]
        },
{
    if before.len() >= 280 {
        assert forall|i: int| 0 <= i < 8 implies after[0 + i] == #[trigger] wire::i64_le(
            m.correlation_id,
        )[i] by {}
        wire::lemma_i64_at_le(after, 0, m.correlation_id);
        assert forall|i: int| 0 <= i < 8 implies after[8 + i] == #[trigger] wire::i64_le(
            m.client_id,
        )[i] by {}
        wire::lemma_i64_at_le(after, 8, m.client_id);
        assert forall|i: int| 0 <= i < 4 implies after[16 + i] == #[trigger] wire::i32_le(
            m.stream_id,
        )[i] by {}
        wire::lemma_i32_at_le(after, 16, m.stream_id);
        let length = m.channel_uri_len as i32;
        assert forall|i: int| 0 <= i < 4 implies after[20 + i] == #[trigger] wire::i32_le(
            length,
        )[i] by {}
        wire::lemma_i32_at_le(after, 20, length);
        assert forall|k: int| 0 <= k < 256 implies #[trigger] after[24 + k]
            == m.channel_uri@[k] by {}
    }
}

/// From 280 bytes or more, with a text length of 0 to 256 in its place, a request for a publication
/// is read, each field from its place; from others nothing. Its text is that many
/// of the bytes, where they are UTF-8.
pub proof fn law_add_publication_is_read(buf: &[u8], r: Option<AddPublication>, text: Option<&str>)
    requires
        call_ensures(AddPublication::decode, (buf,), r),
        r matches Some(m) ==> call_ensures(AddPublication::channel_str, (&m,), text),
    ensures
        r is Some <==> buf@.len() >= 280 && 0 <= wire::i32_at(buf@, 20) <= 256,
        r matches Some(m) ==> {
            &&& m.correlation_id == wire::i64_at(buf@, 0)
            &&& m.client_id == wire::i64_at(buf@, 8)
            &&& m.stream_id == wire::i32_at(buf@, 16)
            &&& m.channel_uri_len == wire::i32_at(buf@, 20)
            &&& forall|k: int| 0 <= k < 256 ==> #[trigger] m.channel_uri@[k] == buf@[24 + k]
            &&& text is Some <==> utf8::valid_utf8(
                buf@.subrange(24, 24 + wire::i32_at(buf@, 20)),
            )
            &&& text matches Some(t) ==> utf8::encode_utf8(t@) == buf@.subrange(
                24,
                24 + wire::i32_at(buf@, 20),
            )
        },
{
    if let Some(m) = r {
        assert(m.text() =~= buf@.subrange(24, 24 + wire::i32_at(buf@, 20)));
        assert forall|k: int| 0 <= k < 256 implies #[trigger] m.channel_uri@[k] == buf@[24
            + k] by {}
    }
}

/// A request for a publication can be made of a channel of up to 256 bytes, and names that
/// channel and nothing but what it was given.
pub proof fn law_add_publication_names_its_channel(
    correlation_id: i64,
    client_id: i64,
    stream_id: i32,
    channel: &str,
    r: Option<AddPublication>,
)
    requires
        call_ensures(AddPublication::from_channel, (correlation_id, client_id, stream_id, channel), r),
    ensures
        r is Some <==> utf8::encode_utf8(channel@).len() <= 256,
        r matches Some(m) ==> {
            &&& m.correlation_id == correlation_id
            &&& m.client_id == client_id
            &&& m.stream_id == stream_id
            &&& m.channel_uri_len == utf8::encode_utf8(channel@).len()
            &&& forall|k: int|
                0 <= k < 256 ==> #[trigger] m.channel_uri@[k] == if k < m.channel_uri_len {
                    utf8::encode_utf8(channel@)[k]
                } else {
                    0
                }
        },
{
}

/// The bytes of a request for a subscription: each field at its place, the length of the text and then its
/// 256 bytes, and nothing else touched. A buffer of under 280 bytes is left
/// alone.
pub proof fn law_add_subscription_is_laid_out(
    m: &AddSubscription,
    before: Seq<u8>,
    after: Seq<u8>,
    r: Option<usize>,
)
    requires
        m.channel_uri_len <= 256,
        exists|buf: &mut [u8]|
            (*buf)@ == before && (*final(buf))@ == after && #[trigger] call_ensures(
                AddSubscription::encode,
                (m, buf),
                r,
            ),
    ensures
        before.len() < 280 ==> r is None && after == before,
        before.len() >= 280 ==> {
            &&& r == Some(280usize)
            &&& after.len() == before.len()
            &&& wire::i64_at(after, 0) == m.correlation_id
            &&& wire::i64_at(after, 8) == m.client_id
            &&& wire::i32_at(after, 16) == m.stream_id
            &&& wire::i32_at(after, 20) == m.channel_uri_len
            &&& forall|k: int| 0 <= k < 256 ==> #[trigger] after[24 + k] == m.channel_uri@[k]
            &&& forall|k: int| 280 <= k < before.len() ==> #[trigger] after[k] == before[k]
        },
{
    if before.len() >= 280 {
        assert forall|i: int| 0 <= i < 8 implies after[0 + i] == #[trigger] wire::i64_le(
            m.correlation_id,
        )[i] by {}
        wire::lemma_i64_at_le(after, 0, m.correlation_id);
        assert forall|i: int| 0 <= i < 8 implies after[8 + i] == #[trigger] wire::i64_le(
            m.client_id,
        )[i] by {}
        wire::lemma_i64_at_le(after, 8, m.client_id);
        assert forall|i: int| 0 <= i < 4 implies after[16 + i] == #[trigger] wire::i32_le(
            m.stream_id,
        )[i] by {}
        wire::lemma_i32_at_le(after, 16, m.stream_id);
        let length = m.channel_uri_len as i32;
        assert forall|i: int| 0 <= i < 4 implies after[20 + i] == #[trigger] wire::i32_le(
            length,
        )[i] by {}
        wire::lemma_i32_at_le(after, 20, length);
        assert forall|k: int| 0 <= k < 256 implies #[trigger] after[24 + k]
            == m.channel_uri@[k] by {}
    }
}

/// From 280 bytes or more, with a text length of 0 to 256 in its place, a request for a subscription
/// is read, each field from its place; from others nothing. Its text is that many
/// of the bytes, where they are UTF-8.
pub proof fn law_add_subscription_is_read(buf: &[u8], r: Option<AddSubscription>, text: Option<&str>)
    requires
        call_ensures(AddSubscription::decode, (buf,), r),
        r matches Some(m) ==> call_ensures(AddSubscription::channel_str, (&m,), text),
    ensures
        r is Some <==> buf@.len() >= 280 && 0 <= wire::i32_at(buf@, 20) <= 256,
        r matches Some(m) ==> {
            &&& m.correlation_id == wire::i64_at(buf@, 0)
            &&& m.client_id == wire::i64_at(buf@, 8)
            &&& m.stream_id == wire::i32_at(buf@, 16)
            &&& m.channel_uri_len == wire::i32_at(buf@, 20)
            &&& forall|k: int| 0 <= k < 256 ==> #[trigger] m.channel_uri@[k] == buf@[24 + k]
            &&& text is Some <==> utf8::valid_utf8(
                buf@.subrange(24, 24 + wire::i32_at(buf@, 20)),
            )
            &&& text matches Some(t) ==> utf8::encode_utf8(t@) == buf@.subrange(
                24,
                24 + wire::i32_at(buf@, 20),
            )
        },
{
    if let Some(m) = r {
        assert(m.text() =~= buf@.subrange(24, 24 + wire::i32_at(buf@, 20)));
        assert forall|k: int| 0 <= k < 256 implies #[trigger] m.channel_uri@[k] == buf@[24
            + k] by {}
    }
}

/// A request for a subscription can be made of a channel of up to 256 bytes, and names that
/// channel and nothing but what it was given.
pub proof fn law_add_subscription_names_its_channel(
    correlation_id: i64,
    client_id: i64,
    stream_id: i32,
    channel: &str,
    r: Option<AddSubscription>,
)
    requires
        call_ensures(AddSubscription::from_channel, (correlation_id, client_id, stream_id, channel), r),
    ensures
        r is Some <==> utf8::encode_utf8(channel@).len() <= 256,
        r matches Some(m) ==> {
            &&& m.correlation_id == correlation_id
            &&& m.client_id == client_id
            &&& m.stream_id == stream_id
            &&& m.channel_uri_len == utf8::encode_utf8(channel@).len()
            &&& forall|k: int|
                0 <= k < 256 ==> #[trigger] m.channel_uri@[k] == if k < m.channel_uri_len {
                    utf8::encode_utf8(channel@)[k]
                } else {
                    0
                }
        },
{
}

/// The bytes of a refusal: each field at its place, the length of the text and then its
/// 256 bytes, and nothing else touched. A buffer of under 272 bytes is left
/// alone.
pub proof fn law_operation_error_is_laid_out(
    m: &OperationError,
    before: Seq<u8>,
    after: Seq<u8>,
    r: Option<usize>,
)
    requires
        m.error_msg_len <= 256,
        exists|buf: &mut [u8]|
            (*buf)@ == before && (*final(buf))@ == after && #[trigger] call_ensures(
                OperationError::encode,
                (m, buf),
                r,
            ),
    ensures
        before.len() < 272 ==> r is None && after == before,
        before.len() >= 272 ==> {
            &&& r == Some(272usize)
            &&& after.len() == before.len()
            &&& wire::i64_at(after, 0) == m.correlation_id
            &&& wire::i32_at(after, 8) == m.error_code
            &&& wire::i32_at(after, 12) == m.error_msg_len
            &&& forall|k: int| 0 <= k < 256 ==> #[trigger] after[16 + k] == m.error_msg@[k]
            &&& forall|k: int| 272 <= k < before.len() ==> #[trigger] after[k] == before[k]
        },
{
    if before.len() >= 272 {
        assert forall|i: int| 0 <= i < 8 implies after[0 + i] == #[trigger] wire::i64_le(
            m.correlation_id,
        )[i] by {}
        wire::lemma_i64_at_le(after, 0, m.correlation_id);
        assert forall|i: int| 0 <= i < 4 implies after[8 + i] == #[trigger] wire::i32_le(
            m.error_code,
        )[i] by {}
        wire::lemma_i32_at_le(after, 8, m.error_code);
        let length = m.error_msg_len as i32;
        assert forall|i: int| 0 <= i < 4 implies after[12 + i] == #[trigger] wire::i32_le(
            length,
        )[i] by {}
        wire::lemma_i32_at_le(after, 12, length);
        assert forall|k: int| 0 <= k < 256 implies #[trigger] after[16 + k]
            == m.error_msg@[k] by {}
    }
}

/// From 272 bytes or more, with a text length of 0 to 256 in its place, a refusal
/// is read, each field from its place; from others nothing. Its text is that many
/// of the bytes, where they are UTF-8.
pub proof fn law_operation_error_is_read(buf: &[u8], r: Option<OperationError>, text: Option<&str>)
    requires
        call_ensures(OperationError::decode, (buf,), r),
        r matches Some(m) ==> call_ensures(OperationError::error_str, (&m,), text),
    ensures
        r is Some <==> buf@.len() >= 272 && 0 <= wire::i32_at(buf@, 12) <= 256,
        r matches Some(m) ==> {
            &&& m.correlation_id == wire::i64_at(buf@, 0)
            &&& m.error_code == wire::i32_at(buf@, 8)
            &&& m.error_msg_len == wire::i32_at(buf@, 12)
            &&& forall|k: int| 0 <= k < 256 ==> #[trigger] m.error_msg@[k] == buf@[16 + k]
            &&& text is Some <==> utf8::valid_utf8(
                buf@.subrange(16, 16 + wire::i32_at(buf@, 12)),
            )
            &&& text matches Some(t) ==> utf8::encode_utf8(t@) == buf@.subrange(
                16,
                16 + wire::i32_at(buf@, 12),
            )
        },
{
    if let Some(m) = r {
        assert(m.text() =~= buf@.subrange(16, 16 + wire::i32_at(buf@, 12)));
        assert forall|k: int| 0 <= k < 256 implies #[trigger] m.error_msg@[k] == buf@[16
            + k] by {}
    }
}

/// A refusal carries the first 256 bytes of its text, all of a shorter one.
pub proof fn law_refusal_says_why(
    correlation_id: i64,
    error_code: i32,
    msg: &str,
    m: OperationError,
)
    requires
        call_ensures(OperationError::from_message, (correlation_id, error_code, msg), m),
    ensures
        m.correlation_id == correlation_id,
        m.error_code == error_code,
        m.error_msg_len <= 256,
        m.error_msg_len == 256 || m.error_msg_len == utf8::encode_utf8(msg@).len(),
        m.error_msg_len <= utf8::encode_utf8(msg@).len(),
        forall|k: int|
            0 <= k < 256 ==> #[trigger] m.error_msg@[k] == if k < m.error_msg_len {
                utf8::encode_utf8(msg@)[k]
            } else {
                0
            },
{
}

/// A text is followed by zeros up to 256 bytes.
pub proof fn law_text_is_padded_with_zeros(text: &[u8], r: [u8; 256])
    requires
        call_ensures(pad_text, (text,), r),
    ensures
        forall|k: int|
            0 <= k < 256 ==> #[trigger] r@[k] == if k < text@.len() {
                text@[k]
            } else {
                0
            },
{
}

} // verus!
