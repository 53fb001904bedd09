//! The client's side: publications, subscriptions, and the handles that travel
//! between the client and the agents.

pub mod aeron;
pub mod bridge;
pub mod media_driver;
pub mod publication;
pub mod sub_bridge;
pub mod subscription;

use crate::cnc::command;
use vstd::prelude::*;
use vstd::slice::slice_subrange;
use vstd::utf8;

verus! {

/// What can go wrong for a client.
#[derive(Debug, Clone, Copy, PartialEq, Eq, Structural)]
pub enum ClientError {
    /// Driver is not running.
    DriverNotRunning,
    /// No response from the driver in time.
    Timeout,
    /// The driver did not take the request.
    RegistrationFailed,
    /// Channel URI is invalid or cannot be resolved.
    ChannelInvalid,
    /// Too many publications on their way to the sender.
    MaxPublicationsReached,
    /// Too many subscription endpoints on their way to the receiver.
    MaxSubscriptionsReached,
    /// Invalid parameters (term length, MTU).
    InvalidParams,
    /// The command-and-control region cannot be used.
    CncError,
    /// The socket could not be opened.
    TransportError,
}

impl ClientError {
    /// Text of the error.
    pub open spec fn text(self) -> Seq<char> {
        match self {
            ClientError::DriverNotRunning => "driver not running"@,
            ClientError::Timeout => "timed out waiting for driver response"@,
            ClientError::RegistrationFailed => "registration failed"@,
            ClientError::ChannelInvalid => "invalid channel URI"@,
            ClientError::MaxPublicationsReached => "max publications reached"@,
            ClientError::MaxSubscriptionsReached => "max subscriptions reached"@,
            ClientError::InvalidParams => "invalid parameters"@,
            ClientError::CncError => "CnC mapping error"@,
            ClientError::TransportError => "transport open failed"@,
        }
    }

    /// Text of the error.
    pub fn to_string(&self) -> (r: String)
        ensures
            r@ == self.text(),
    {
        let text = match self {
            ClientError::DriverNotRunning => "driver not running",
            ClientError::Timeout => "timed out waiting for driver response",
            ClientError::RegistrationFailed => "registration failed",
            ClientError::ChannelInvalid => "invalid channel URI",
            ClientError::MaxPublicationsReached => "max publications reached",
            ClientError::MaxSubscriptionsReached => "max subscriptions reached",
            ClientError::InvalidParams => "invalid parameters",
            ClientError::CncError => "CnC mapping error",
            ClientError::TransportError => "transport open failed",
        };
        text.to_owned()
    }
}

/// Bytes of a channel URI that are kept.
pub const MAX_CHANNEL_LENGTH: usize = 256;

/// A channel URI, stored in place and cut off where it is too long.
#[derive(Debug, Clone, Copy)]
pub struct ChannelUri {
    pub buf: [u8; MAX_CHANNEL_LENGTH],
    pub len: usize,
}

impl ChannelUri {
    /// The bytes that count.
    pub open spec fn text(self) -> Seq<u8> {
        self.buf@.subrange(0, self.len as int)
    }

    /// The URI is that of a channel.
    pub open spec fn is_of(self, channel: Seq<char>) -> bool {
        let bytes = utf8::encode_utf8(channel);
        &&& self.len == if bytes.len() < MAX_CHANNEL_LENGTH {
            bytes.len()
        } else {
            MAX_CHANNEL_LENGTH as nat
        }
        &&& self.text() == bytes.subrange(0, self.len as int)
    }

    /// Keeps a channel URI.
    pub fn new(channel: &str) -> (r: Self)
        ensures
            r.is_of(channel@),
    {
        let bytes = channel.as_bytes();
        let len: usize = if bytes.len() < MAX_CHANNEL_LENGTH {
            bytes.len()
        } else {
            MAX_CHANNEL_LENGTH
        };
        let kept = slice_subrange(bytes, 0, len);
        let r = ChannelUri { buf: command::pad_text(kept), len };
        assert(r.text() =~= kept@);
        r
    }

    /// The URI as text. One that was cut off within a character gives an empty
    /// text.
    pub fn as_str(&self) -> (r: &str)
        requires
            self.len <= MAX_CHANNEL_LENGTH,
        ensures
            utf8::valid_utf8(self.text()) ==> utf8::encode_utf8(r@) == self.text(),
            !utf8::valid_utf8(self.text()) ==> r@ == ""@,
    {
        let text = slice_subrange(self.buf.as_slice(), 0, self.len);
        assert(text@ =~= self.text());
        match command::str_from_utf8(text) {
            Some(text) => text,
            None => "",
        }
    }
}

/// A channel URI that is not too long is kept whole.
pub proof fn law_channel_uri_is_kept(uri: ChannelUri, channel: Seq<char>)
    requires
        uri.is_of(channel),
        utf8::encode_utf8(channel).len() <= MAX_CHANNEL_LENGTH,
    ensures
        utf8::valid_utf8(uri.text()),
        utf8::decode_utf8(uri.text()) == channel,
{
    assert(uri.text() =~= utf8::encode_utf8(channel));
    utf8::encode_utf8_valid_utf8(channel);
    utf8::encode_utf8_decode_utf8(channel);
}

/// A channel is kept with its first 256 bytes, and gives its text back where it
/// was no longer than that.
pub proof fn law_channel_gives_its_text_back(channel: &str, uri: ChannelUri, r: &str)
    requires
        call_ensures(ChannelUri::new, (channel,), uri),
        call_ensures(ChannelUri::as_str, (&uri,), r),
    ensures
        uri.len <= 256,
        uri.len == 256 || uri.len == utf8::encode_utf8(channel@).len(),
        uri.len <= utf8::encode_utf8(channel@).len(),
        forall|k: int|
            0 <= k < uri.len ==> #[trigger] uri.buf@[k] == utf8::encode_utf8(channel@)[k],
        utf8::encode_utf8(channel@).len() <= 256 ==> r@ == channel@,
{
    let bytes = utf8::encode_utf8(channel@);
    assert forall|k: int| 0 <= k < uri.len implies #[trigger] uri.buf@[k] == bytes[k] by {
        assert(uri.text()[k] == bytes.subrange(0, uri.len as int)[k]);
    }
    if bytes.len() <= 256 {
        law_channel_uri_is_kept(uri, channel@);
        utf8::encode_utf8_decode_utf8(r@);
    }
}

/// What each error says.
pub proof fn law_client_error_says_what_is_wrong(e: &ClientError, r: String)
    requires
        call_ensures(ClientError::to_string, (e,), r),
    ensures
        match *e {
            ClientError::DriverNotRunning => r@ == "driver not running"@,
            ClientError::Timeout => r@ == "timed out waiting for driver response"@,
            ClientError::RegistrationFailed => r@ == "registration failed"@,
            ClientError::ChannelInvalid => r@ == "invalid channel URI"@,
            ClientError::MaxPublicationsReached => r@ == "max publications reached"@,
            ClientError::MaxSubscriptionsReached => r@ == "max subscriptions reached"@,
            ClientError::InvalidParams => r@ == "invalid parameters"@,
            ClientError::CncError => r@ == "CnC mapping error"@,
            ClientError::TransportError => r@ == "transport open failed"@,
        },
{
}

} // verus!
