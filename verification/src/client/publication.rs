//! The client's handle of a publication.
//!
//! The log that frames are appended to is shared with the sender and stands
//! outside. The handle knows what the publication is, and where the log's write
//! cursor was after the last offer.

use crate::client;
use crate::client::{ChannelUri, MAX_CHANNEL_LENGTH};
use crate::frame::DATA_HEADER_LENGTH;
use vstd::prelude::*;
use vstd::utf8;

verus! {

/// Why an offer was not taken.
#[derive(Debug, Clone, Copy, PartialEq, Eq, Structural)]
pub enum OfferError {
    /// The payload does not fit into one frame.
    PayloadTooLarge,
    /// The sender has not caught up: try again later.
    BackPressured,
    /// The term was rotated: try again at once.
    AdminAction,
}

/// Where a log's write cursor is.
#[derive(Debug, Clone, Copy, PartialEq, Eq, Structural)]
pub struct LogCursor {
    pub active_term_id: i32,
    pub term_offset: u32,
    /// Highest published byte position.
    pub position: i64,
}

/// What a publication's log was made with.
#[derive(Debug, Clone, Copy, PartialEq, Eq, Structural)]
pub struct LogParams {
    pub session_id: i32,
    pub stream_id: i32,
    pub initial_term_id: i32,
    pub term_length: u32,
    pub mtu: u32,
}

/// A publication, as its client sees it.
#[derive(Debug)]
pub struct Publication {
    pub registration_id: i64,
    pub params: LogParams,
    pub cursor: LogCursor,
    pub channel_uri: ChannelUri,
}

impl Publication {
    /// The handle of a log that was just made.
    pub fn new(params: LogParams, cursor: LogCursor, registration_id: i64, channel: &str) -> (r:
        Self)
        ensures
            r.registration_id == registration_id,
            r.params == params,
            r.cursor == cursor,
            r.channel_uri.is_of(channel@),
    {
        Publication { registration_id, params, cursor, channel_uri: ChannelUri::new(channel) }
    }

    /// A payload of this length fits into one frame.
    pub open spec fn fits_frame(self, payload_length: int) -> bool {
        payload_length + DATA_HEADER_LENGTH <= self.params.mtu
    }

    /// Whether a payload of this length fits into one frame.
    pub fn accepts(&self, payload_length: usize) -> (r: bool)
        ensures
            r == self.fits_frame(payload_length as int),
    {
        let mtu: usize = self.params.mtu as usize;
        DATA_HEADER_LENGTH <= mtu && payload_length <= mtu - DATA_HEADER_LENGTH
    }

    /// The handle after an offer of a payload of this length, with the log's cursor
    /// as it is then.
    pub open spec fn after_offer(self, payload_length: int, cursor: LogCursor) -> Publication {
        if self.fits_frame(payload_length) {
            Publication { cursor, ..self }
        } else {
            self
        }
    }

    /// What an offer of a payload of this length returns, given what offering it to
    /// the log came to and the log's cursor as it is then.
    pub open spec fn offer_result(
        self,
        payload_length: int,
        appended: Result<(), OfferError>,
        cursor: LogCursor,
    ) -> Result<i64, OfferError> {
        if !self.fits_frame(payload_length) {
            Err(OfferError::PayloadTooLarge)
        } else {
            match appended {
                Ok(_) => Ok(cursor.position),
                Err(e) => Err(e),
            }
        }
    }

    /// Takes in what an offer of a payload to the log came to, and where the log's
    /// cursor is now. Returns the new position of the publication. A payload that
    /// does not fit into a frame is refused, whatever the log said.
    pub fn offer(
        &mut self,
        payload_length: usize,
        appended: Result<(), OfferError>,
        cursor: LogCursor,
    ) -> (r: Result<i64, OfferError>)
        ensures
            r == old(self).offer_result(payload_length as int, appended, cursor),
            *final(self) == old(self).after_offer(payload_length as int, cursor),
    {
        if !self.accepts(payload_length) {
            return Err(OfferError::PayloadTooLarge);
        }
        self.cursor = cursor;
        match appended {
            Ok(()) => Ok(cursor.position),
            Err(e) => Err(e),
        }
    }

    /// Registration id of the publication.
    pub fn registration_id(&self) -> (r: i64)
        ensures
            r == self.registration_id,
    {
        self.registration_id
    }

    /// Session id of the publication.
    pub fn session_id(&self) -> (r: i32)
        ensures
            r == self.params.session_id,
    {
        self.params.session_id
    }

    /// Stream id of the publication.
    pub fn stream_id(&self) -> (r: i32)
        ensures
            r == self.params.stream_id,
    {
        self.params.stream_id
    }

    /// Term id that the log began with.
    pub fn initial_term_id(&self) -> (r: i32)
        ensures
            r == self.params.initial_term_id,
    {
        self.params.initial_term_id
    }

    /// Term id of the write cursor.
    pub fn active_term_id(&self) -> (r: i32)
        ensures
            r == self.cursor.active_term_id,
    {
        self.cursor.active_term_id
    }

    /// Offset of the write cursor in its term.
    pub fn term_offset(&self) -> (r: u32)
        ensures
            r == self.cursor.term_offset,
    {
        self.cursor.term_offset
    }

    /// Length of a term.
    pub fn term_length(&self) -> (r: u32)
        ensures
            r == self.params.term_length,
    {
        self.params.term_length
    }

    /// Maximum transmission unit.
    pub fn mtu(&self) -> (r: u32)
        ensures
            r == self.params.mtu,
    {
        self.params.mtu
    }

    /// Highest published byte position.
    pub fn position(&self) -> (r: i64)
        ensures
            r == self.cursor.position,
    {
        self.cursor.position
    }

    /// Channel URI. One that was cut off within a character gives an empty text.
    pub fn channel(&self) -> (r: &str)
        requires
            self.channel_uri.len <= MAX_CHANNEL_LENGTH,
        ensures
            utf8::valid_utf8(self.channel_uri.text()) ==> utf8::encode_utf8(r@)
                == self.channel_uri.text(),
            !utf8::valid_utf8(self.channel_uri.text()) ==> r@ == ""@,
    {
        self.channel_uri.as_str()
    }
}

/// How a log's position moves when a payload is offered to it: it never falls, and
/// a payload that was appended moves it on by a frame header and the payload at
/// least.
pub open spec fn log_moves(
    before: i64,
    payload_length: int,
    appended: Result<(), OfferError>,
    after: i64,
) -> bool {
    &&& before <= after
    &&& appended is Ok ==> before + DATA_HEADER_LENGTH + payload_length <= after
}

/// As long as its log moves so, the position of a publication never falls, and an
/// accepted offer returns the new position, which is beyond the old one by a frame
/// header and the payload at least.
pub proof fn law_position_grows_with_log(
    publication: Publication,
    payload_length: int,
    appended: Result<(), OfferError>,
    cursor: LogCursor,
)
    requires
        log_moves(publication.cursor.position, payload_length, appended, cursor.position),
    ensures
        ({
            let after = publication.after_offer(payload_length, cursor);
            &&& publication.cursor.position <= after.cursor.position
            &&& publication.offer_result(payload_length, appended, cursor) matches Ok(p) ==> {
                &&& after.cursor.position == p
                &&& publication.cursor.position + DATA_HEADER_LENGTH + payload_length <= p
            }
        }),
{
}

/// A new publication has what it was made with.
pub proof fn law_new_publication_is_as_asked(
    params: LogParams,
    cursor: LogCursor,
    registration_id: i64,
    channel: &str,
    publication: Publication,
)
    requires
        call_ensures(Publication::new, (params, cursor, registration_id, channel), publication),
    ensures
        publication.registration_id == registration_id,
        publication.params == params,
        publication.cursor == cursor,
        publication.channel_uri.is_of(channel@),
{
}

/// A payload is accepted exactly where it and the 32 bytes of a header fit into the
/// largest frame.
pub proof fn law_payload_has_to_fit_a_frame(
    publication: &Publication,
    payload_length: usize,
    r: bool,
)
    requires
        call_ensures(Publication::accepts, (publication, payload_length), r),
    ensures
        r <==> payload_length + 32 <= publication.params.mtu,
{
}

/// An offer of too large a payload is refused and changes nothing. Any other is
/// answered with what the log said: where it took the payload, with the log's new
/// position. The publication then stands where the log does, and is otherwise as
/// it was.
pub proof fn law_offer_is_answered_by_the_log(
    before: Publication,
    after: Publication,
    payload_length: usize,
    appended: Result<(), OfferError>,
    cursor: LogCursor,
    r: Result<i64, OfferError>,
)
    requires
        exists|publication: &mut Publication|
            *publication == before && *final(publication) == after && #[trigger] call_ensures(
                Publication::offer,
                (publication, payload_length, appended, cursor),
                r,
            ),
    ensures
        payload_length + 32 > before.params.mtu ==> r == Err::<i64, OfferError>(
            OfferError::PayloadTooLarge,
        ) && after == before,
        payload_length + 32 <= before.params.mtu ==> {
            &&& appended is Ok ==> r == Ok::<i64, OfferError>(cursor.position)
            &&& appended matches Err(e) ==> r == Err::<i64, OfferError>(e)
            &&& after.cursor == cursor
            &&& after.params == before.params
            &&& after.registration_id == before.registration_id
            &&& after.channel_uri == before.channel_uri
        },
{
}

/// A publication tells what it was made with and where it stands.
pub proof fn law_publication_tells_where_it_stands(
    p: &Publication,
    session_id: i32,
    stream_id: i32,
    initial_term_id: i32,
    active_term_id: i32,
    term_offset: u32,
    term_length: u32,
    mtu: u32,
    position: i64,
    registration_id: i64,
)
    requires
        call_ensures(Publication::session_id, (p,), session_id),
        call_ensures(Publication::stream_id, (p,), stream_id),
        call_ensures(Publication::initial_term_id, (p,), initial_term_id),
        call_ensures(Publication::active_term_id, (p,), active_term_id),
        call_ensures(Publication::term_offset, (p,), term_offset),
        call_ensures(Publication::term_length, (p,), term_length),
        call_ensures(Publication::mtu, (p,), mtu),
        call_ensures(Publication::position, (p,), position),
        call_ensures(Publication::registration_id, (p,), registration_id),
    ensures
        p.params == (LogParams { session_id, stream_id, initial_term_id, term_length, mtu }),
        p.cursor == (LogCursor { active_term_id, term_offset, position }),
        p.registration_id == registration_id,
{
}

/// A publication gives back the channel that it was made with, where that has at most 256
/// bytes.
pub proof fn law_publication_keeps_its_channel(
    params: LogParams,
    cursor: LogCursor,
    registration_id: i64,
    channel: &str,
    handle: Publication,
    r: &str,
)
    requires
        call_ensures(Publication::new, (params, cursor, registration_id, channel), handle),
        call_ensures(Publication::channel, (&handle,), r),
    ensures
        utf8::encode_utf8(channel@).len() <= 256 ==> r@ == channel@,
{
    if utf8::encode_utf8(channel@).len() <= 256 {
        client::law_channel_uri_is_kept(handle.channel_uri, channel@);
        utf8::encode_utf8_decode_utf8(r@);
    }
}

} // verus!
