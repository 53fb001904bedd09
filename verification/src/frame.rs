//! Aeron wire protocol frames.
//!
//! Every frame starts with the same 8-byte header; all fields are little-endian.

use crate::wire;
use vstd::prelude::*;
use vstd::slice::slice_subrange;

verus! {

broadcast use wire::lemma_u32_le_len;

pub const FRAME_HEADER_LENGTH: usize = 8;

pub const DATA_HEADER_LENGTH: usize = 32;

pub const SM_HEADER_LENGTH: usize = 36;

pub const NAK_HEADER_LENGTH: usize = 28;

pub const SETUP_HEADER_LENGTH: usize = 40;

pub const RTTM_HEADER_LENGTH: usize = 40;

pub const SM_TOTAL_LENGTH: usize = 36;

pub const NAK_TOTAL_LENGTH: usize = 28;

pub const SETUP_TOTAL_LENGTH: usize = 40;

pub const RTTM_TOTAL_LENGTH: usize = 40;

pub const CURRENT_VERSION: u8 = 0;

pub const FRAME_TYPE_PAD: u16 = 0x0000;

pub const FRAME_TYPE_DATA: u16 = 0x0001;

pub const FRAME_TYPE_NAK: u16 = 0x0002;

pub const FRAME_TYPE_SM: u16 = 0x0003;

pub const FRAME_TYPE_ERR: u16 = 0x0004;

pub const FRAME_TYPE_SETUP: u16 = 0x0005;

pub const FRAME_TYPE_RTTM: u16 = 0x0006;

pub const FRAME_TYPE_RESOLUTION: u16 = 0x0007;

pub const FRAME_TYPE_HEARTBEAT: u16 = 0x0008;

pub const DATA_FLAG_BEGIN: u8 = 0x80;

pub const DATA_FLAG_END: u8 = 0x40;

pub const DATA_FLAG_EOS: u8 = 0x20;

pub const SM_FLAG_SETUP: u8 = 0x80;

pub const SETUP_FLAG_RESPONSE: u8 = 0x80;

pub const RTTM_FLAG_REPLY: u8 = 0x80;

/// Common 8-byte header of all frames.
///
/// Layout, little-endian:
///
/// ```text
///   offset  0: frame_length (i32)
///   offset  4: version (u8)
///   offset  5: flags (u8)
///   offset  6: frame_type (u16)
/// ```
#[derive(Clone, Copy, Debug, PartialEq, Eq, Structural)]
pub struct FrameHeader {
    pub frame_length: i32,
    pub version: u8,
    pub flags: u8,
    pub frame_type: u16,
}

impl FrameHeader {
    /// The bytes that encode the header.
    pub open spec fn bytes(self) -> Seq<u8> {
        wire::i32_le(self.frame_length) + seq![self.version] + seq![self.flags] + wire::u16_le(self.frame_type)
    }

    /// The header that bytes encode.
    pub open spec fn decoded(s: Seq<u8>) -> Self {
        FrameHeader {
            frame_length: wire::i32_at(s, 0),
            version: s[4],
            flags: s[5],
            frame_type: wire::u16_at(s, 6),
        }
    }

    /// Reads the header, `None` if the buffer is too short.
    pub fn parse(buf: &[u8]) -> (r: Option<Self>)
        ensures
            r == if buf@.len() < FRAME_HEADER_LENGTH {
                None
            } else {
                Some(Self::decoded(buf@))
            },
    {
        if buf.len() < FRAME_HEADER_LENGTH {
            return None;
        }
        Some(
            FrameHeader {
                frame_length: wire::read_i32(buf, 0),
                version: buf[4],
                flags: buf[5],
                frame_type: wire::read_u16(buf, 6),
            },
        )
    }

    /// Writes the header at the front of the buffer.
    pub fn write(&self, buf: &mut [u8])
        requires
            old(buf)@.len() >= FRAME_HEADER_LENGTH,
        ensures
            final(buf)@ == wire::splice(old(buf)@, 0, self.bytes()),
    {
        wire::write_i32(buf, 0, self.frame_length);
        buf[4] = self.version;
        buf[5] = self.flags;
        wire::write_u16(buf, 6, self.frame_type);
        assert(buf@ =~= wire::splice(old(buf)@, 0, self.bytes()));
    }
}

/// What `FrameHeader::write` wrote, `FrameHeader::parse` gives back.
pub proof fn law_frame_header_write_parse(h: FrameHeader, s: Seq<u8>)
    requires
        s.len() >= FRAME_HEADER_LENGTH,
    ensures
        FrameHeader::decoded(wire::splice(s, 0, h.bytes())) == h,
        wire::splice(s, 0, h.bytes()).len() == s.len(),
{
    let t = wire::splice(s, 0, h.bytes());
    assert forall|i: int| 0 <= i < 4 implies t[0 + i] == #[trigger] wire::i32_le(h.frame_length)[i] by {}
    wire::lemma_i32_at_le(t, 0, h.frame_length);
    assert(t[6] == wire::u16_le(h.frame_type)[0] && t[7] == wire::u16_le(h.frame_type)[1]);
    wire::lemma_u16_at_le(t, 6, h.frame_type);
}

/// What `FrameHeader::parse` reads, `FrameHeader::write` writes back byte for byte.
pub proof fn law_frame_header_parse_write(s: Seq<u8>)
    requires
        s.len() >= FRAME_HEADER_LENGTH,
    ensures
        FrameHeader::decoded(s).bytes() == s.subrange(0, FRAME_HEADER_LENGTH as int),
{
    let h = FrameHeader::decoded(s);
    wire::lemma_i32_le_at(s, 0);
    wire::lemma_u16_le_at(s, 6);
    assert forall|i: int| 0 <= i < 8 implies h.bytes()[i] == #[trigger] s[i] by {
        if 0 <= i < 4 {
            assert(s[0 + (i - 0)] == wire::i32_le(h.frame_length)[i - 0]);
        }
    }
    assert(h.bytes() =~= s.subrange(0, FRAME_HEADER_LENGTH as int));
}

proof fn lemma_frame_header_same(s: Seq<u8>, t: Seq<u8>)
    requires
        forall|i: int| 0 <= i < 8 ==> s[i] == #[trigger] t[i],
    ensures
        FrameHeader::decoded(s) == FrameHeader::decoded(t),
{
    wire::lemma_u32_at_same(s, t, 0);
    assert(s[4] == t[4] && s[5] == t[5] && s[6] == t[6] && s[7] == t[7]);
}

/// 32-byte header of a data (or padding) frame.
///
/// Layout, little-endian:
///
/// ```text
///   offset  0: frame header
///   offset  8: term_offset (i32)
///   offset 12: session_id (i32)
///   offset 16: stream_id (i32)
///   offset 20: term_id (i32)
///   offset 24: reserved_value (i64)
/// ```
#[derive(Clone, Copy, Debug, PartialEq, Eq, Structural)]
pub struct DataHeader {
    pub frame_header: FrameHeader,
    pub term_offset: i32,
    pub session_id: i32,
    pub stream_id: i32,
    pub term_id: i32,
    pub reserved_value: i64,
}

impl DataHeader {
    /// The bytes that encode the header.
    pub open spec fn bytes(self) -> Seq<u8> {
        self.frame_header.bytes() + wire::i32_le(self.term_offset) + wire::i32_le(self.session_id) + wire::i32_le(self.stream_id) + wire::i32_le(self.term_id) + wire::i64_le(self.reserved_value)
    }

    /// The header that bytes encode.
    pub open spec fn decoded(s: Seq<u8>) -> Self {
        DataHeader {
            frame_header: FrameHeader::decoded(s),
            term_offset: wire::i32_at(s, 8),
            session_id: wire::i32_at(s, 12),
            stream_id: wire::i32_at(s, 16),
            term_id: wire::i32_at(s, 20),
            reserved_value: wire::i64_at(s, 24),
        }
    }

    /// Reads the header, `None` if the buffer is too short.
    pub fn parse(buf: &[u8]) -> (r: Option<Self>)
        ensures
            r == if buf@.len() < DATA_HEADER_LENGTH {
                None
            } else {
                Some(Self::decoded(buf@))
            },
    {
        if buf.len() < DATA_HEADER_LENGTH {
            return None;
        }
        match FrameHeader::parse(buf) {
            Some(frame_header) => Some(
                DataHeader {
                    frame_header,
                    term_offset: wire::read_i32(buf, 8),
                    session_id: wire::read_i32(buf, 12),
                    stream_id: wire::read_i32(buf, 16),
                    term_id: wire::read_i32(buf, 20),
                    reserved_value: wire::read_i64(buf, 24),
                },
            ),
            None => None,
        }
    }

    /// Writes the header at the front of the buffer.
    pub fn write(&self, buf: &mut [u8])
        requires
            old(buf)@.len() >= DATA_HEADER_LENGTH,
        ensures
            final(buf)@ == wire::splice(old(buf)@, 0, self.bytes()),
    {
        self.frame_header.write(buf);
        wire::write_i32(buf, 8, self.term_offset);
        wire::write_i32(buf, 12, self.session_id);
        wire::write_i32(buf, 16, self.stream_id);
        wire::write_i32(buf, 20, self.term_id);
        wire::write_i64(buf, 24, self.reserved_value);
        assert(buf@ =~= wire::splice(old(buf)@, 0, self.bytes()));
    }
}

/// What `DataHeader::write` wrote, `DataHeader::parse` gives back.
pub proof fn law_data_header_write_parse(h: DataHeader, s: Seq<u8>)
    requires
        s.len() >= DATA_HEADER_LENGTH,
    ensures
        DataHeader::decoded(wire::splice(s, 0, h.bytes())) == h,
        wire::splice(s, 0, h.bytes()).len() == s.len(),
{
    let t = wire::splice(s, 0, h.bytes());
    let inner = wire::splice(s, 0, h.frame_header.bytes());
    law_frame_header_write_parse(h.frame_header, s);
    assert forall|i: int| 0 <= i < 8 implies inner[i] == #[trigger] t[i] by {}
    lemma_frame_header_same(inner, t);
    assert forall|i: int| 0 <= i < 4 implies t[8 + i] == #[trigger] wire::i32_le(h.term_offset)[i] by {}
    wire::lemma_i32_at_le(t, 8, h.term_offset);
    assert forall|i: int| 0 <= i < 4 implies t[12 + i] == #[trigger] wire::i32_le(h.session_id)[i] by {}
    wire::lemma_i32_at_le(t, 12, h.session_id);
    assert forall|i: int| 0 <= i < 4 implies t[16 + i] == #[trigger] wire::i32_le(h.stream_id)[i] by {}
    wire::lemma_i32_at_le(t, 16, h.stream_id);
    assert forall|i: int| 0 <= i < 4 implies t[20 + i] == #[trigger] wire::i32_le(h.term_id)[i] by {}
    wire::lemma_i32_at_le(t, 20, h.term_id);
    assert forall|i: int| 0 <= i < 8 implies t[24 + i] == #[trigger] wire::i64_le(h.reserved_value)[i] by {}
    wire::lemma_i64_at_le(t, 24, h.reserved_value);
}

/// What `DataHeader::parse` reads, `DataHeader::write` writes back byte for byte.
pub proof fn law_data_header_parse_write(s: Seq<u8>)
    requires
        s.len() >= DATA_HEADER_LENGTH,
    ensures
        DataHeader::decoded(s).bytes() == s.subrange(0, DATA_HEADER_LENGTH as int),
{
    let h = DataHeader::decoded(s);
    law_frame_header_parse_write(s);
    assert forall|i: int| 0 <= i < 8 implies h.frame_header.bytes()[i] == #[trigger] s[i] by {
        assert(s.subrange(0, 8)[i] == s[i]);
    }
    wire::lemma_i32_le_at(s, 8);
    wire::lemma_i32_le_at(s, 12);
    wire::lemma_i32_le_at(s, 16);
    wire::lemma_i32_le_at(s, 20);
    wire::lemma_i64_le_at(s, 24);
    assert forall|i: int| 0 <= i < 32 implies h.bytes()[i] == #[trigger] s[i] by {
        if 8 <= i < 12 {
            assert(s[8 + (i - 8)] == wire::i32_le(h.term_offset)[i - 8]);
        }
        if 12 <= i < 16 {
            assert(s[12 + (i - 12)] == wire::i32_le(h.session_id)[i - 12]);
        }
        if 16 <= i < 20 {
            assert(s[16 + (i - 16)] == wire::i32_le(h.stream_id)[i - 16]);
        }
        if 20 <= i < 24 {
            assert(s[20 + (i - 20)] == wire::i32_le(h.term_id)[i - 20]);
        }
        if 24 <= i < 32 {
            assert(s[24 + (i - 24)] == wire::i64_le(h.reserved_value)[i - 24]);
        }
    }
    assert(h.bytes() =~= s.subrange(0, DATA_HEADER_LENGTH as int));
}

/// 36-byte status message.
///
/// Layout, little-endian:
///
/// ```text
///   offset  0: frame header
///   offset  8: session_id (i32)
///   offset 12: stream_id (i32)
///   offset 16: consumption_term_id (i32)
///   offset 20: consumption_term_offset (i32)
///   offset 24: receiver_window (i32)
///   offset 28: receiver_id (i64)
/// ```
#[derive(Clone, Copy, Debug, PartialEq, Eq, Structural)]
pub struct StatusMessage {
    pub frame_header: FrameHeader,
    pub session_id: i32,
    pub stream_id: i32,
    pub consumption_term_id: i32,
    pub consumption_term_offset: i32,
    pub receiver_window: i32,
    pub receiver_id: i64,
}

impl StatusMessage {
    /// The bytes that encode the header.
    pub open spec fn bytes(self) -> Seq<u8> {
        self.frame_header.bytes() + wire::i32_le(self.session_id) + wire::i32_le(self.stream_id) + wire::i32_le(self.consumption_term_id) + wire::i32_le(self.consumption_term_offset) + wire::i32_le(self.receiver_window) + wire::i64_le(self.receiver_id)
    }

    /// The header that bytes encode.
    pub open spec fn decoded(s: Seq<u8>) -> Self {
        StatusMessage {
            frame_header: FrameHeader::decoded(s),
            session_id: wire::i32_at(s, 8),
            stream_id: wire::i32_at(s, 12),
            consumption_term_id: wire::i32_at(s, 16),
            consumption_term_offset: wire::i32_at(s, 20),
            receiver_window: wire::i32_at(s, 24),
            receiver_id: wire::i64_at(s, 28),
        }
    }

    /// Reads the header, `None` if the buffer is too short.
    pub fn parse(buf: &[u8]) -> (r: Option<Self>)
        ensures
            r == if buf@.len() < SM_TOTAL_LENGTH {
                None
            } else {
                Some(Self::decoded(buf@))
            },
    {
        if buf.len() < SM_TOTAL_LENGTH {
            return None;
        }
        match FrameHeader::parse(buf) {
            Some(frame_header) => Some(
                StatusMessage {
                    frame_header,
                    session_id: wire::read_i32(buf, 8),
                    stream_id: wire::read_i32(buf, 12),
                    consumption_term_id: wire::read_i32(buf, 16),
                    consumption_term_offset: wire::read_i32(buf, 20),
                    receiver_window: wire::read_i32(buf, 24),
                    receiver_id: wire::read_i64(buf, 28),
                },
            ),
            None => None,
        }
    }

    /// Writes the header at the front of the buffer.
    pub fn write(&self, buf: &mut [u8])
        requires
            old(buf)@.len() >= SM_TOTAL_LENGTH,
        ensures
            final(buf)@ == wire::splice(old(buf)@, 0, self.bytes()),
    {
        self.frame_header.write(buf);
        wire::write_i32(buf, 8, self.session_id);
        wire::write_i32(buf, 12, self.stream_id);
        wire::write_i32(buf, 16, self.consumption_term_id);
        wire::write_i32(buf, 20, self.consumption_term_offset);
        wire::write_i32(buf, 24, self.receiver_window);
        wire::write_i64(buf, 28, self.receiver_id);
        assert(buf@ =~= wire::splice(old(buf)@, 0, self.bytes()));
    }
}

/// What `StatusMessage::write` wrote, `StatusMessage::parse` gives back.
pub proof fn law_status_message_write_parse(h: StatusMessage, s: Seq<u8>)
    requires
        s.len() >= SM_TOTAL_LENGTH,
    ensures
        StatusMessage::decoded(wire::splice(s, 0, h.bytes())) == h,
        wire::splice(s, 0, h.bytes()).len() == s.len(),
{
    let t = wire::splice(s, 0, h.bytes());
    let inner = wire::splice(s, 0, h.frame_header.bytes());
    law_frame_header_write_parse(h.frame_header, s);
    assert forall|i: int| 0 <= i < 8 implies inner[i] == #[trigger] t[i] by {}
    lemma_frame_header_same(inner, t);
    assert forall|i: int| 0 <= i < 4 implies t[8 + i] == #[trigger] wire::i32_le(h.session_id)[i] by {}
    wire::lemma_i32_at_le(t, 8, h.session_id);
    assert forall|i: int| 0 <= i < 4 implies t[12 + i] == #[trigger] wire::i32_le(h.stream_id)[i] by {}
    wire::lemma_i32_at_le(t, 12, h.stream_id);
    assert forall|i: int| 0 <= i < 4 implies t[16 + i] == #[trigger] wire::i32_le(h.consumption_term_id)[i] by {}
    wire::lemma_i32_at_le(t, 16, h.consumption_term_id);
    assert forall|i: int| 0 <= i < 4 implies t[20 + i] == #[trigger] wire::i32_le(h.consumption_term_offset)[i] by {}
    wire::lemma_i32_at_le(t, 20, h.consumption_term_offset);
    assert forall|i: int| 0 <= i < 4 implies t[24 + i] == #[trigger] wire::i32_le(h.receiver_window)[i] by {}
    wire::lemma_i32_at_le(t, 24, h.receiver_window);
    assert forall|i: int| 0 <= i < 8 implies t[28 + i] == #[trigger] wire::i64_le(h.receiver_id)[i] by {}
    wire::lemma_i64_at_le(t, 28, h.receiver_id);
}

/// What `StatusMessage::parse` reads, `StatusMessage::write` writes back byte for byte.
pub proof fn law_status_message_parse_write(s: Seq<u8>)
    requires
        s.len() >= SM_TOTAL_LENGTH,
    ensures
        StatusMessage::decoded(s).bytes() == s.subrange(0, SM_TOTAL_LENGTH as int),
{
    let h = StatusMessage::decoded(s);
    law_frame_header_parse_write(s);
    assert forall|i: int| 0 <= i < 8 implies h.frame_header.bytes()[i] == #[trigger] s[i] by {
        assert(s.subrange(0, 8)[i] == s[i]);
    }
    wire::lemma_i32_le_at(s, 8);
    wire::lemma_i32_le_at(s, 12);
    wire::lemma_i32_le_at(s, 16);
    wire::lemma_i32_le_at(s, 20);
    wire::lemma_i32_le_at(s, 24);
    wire::lemma_i64_le_at(s, 28);
    assert forall|i: int| 0 <= i < 36 implies h.bytes()[i] == #[trigger] s[i] by {
        if 8 <= i < 12 {
            assert(s[8 + (i - 8)] == wire::i32_le(h.session_id)[i - 8]);
        }
        if 12 <= i < 16 {
            assert(s[12 + (i - 12)] == wire::i32_le(h.stream_id)[i - 12]);
        }
        if 16 <= i < 20 {
            assert(s[16 + (i - 16)] == wire::i32_le(h.consumption_term_id)[i - 16]);
        }
        if 20 <= i < 24 {
            assert(s[20 + (i - 20)] == wire::i32_le(h.consumption_term_offset)[i - 20]);
        }
        if 24 <= i < 28 {
            assert(s[24 + (i - 24)] == wire::i32_le(h.receiver_window)[i - 24]);
        }
        if 28 <= i < 36 {
            assert(s[28 + (i - 28)] == wire::i64_le(h.receiver_id)[i - 28]);
        }
    }
    assert(h.bytes() =~= s.subrange(0, SM_TOTAL_LENGTH as int));
}

/// 28-byte NAK frame.
///
/// Layout, little-endian:
///
/// ```text
///   offset  0: frame header
///   offset  8: session_id (i32)
///   offset 12: stream_id (i32)
///   offset 16: active_term_id (i32)
///   offset 20: term_offset (i32)
///   offset 24: length (i32)
/// ```
#[derive(Clone, Copy, Debug, PartialEq, Eq, Structural)]
pub struct NakHeader {
    pub frame_header: FrameHeader,
    pub session_id: i32,
    pub stream_id: i32,
    pub active_term_id: i32,
    pub term_offset: i32,
    pub length: i32,
}

impl NakHeader {
    /// The bytes that encode the header.
    pub open spec fn bytes(self) -> Seq<u8> {
        self.frame_header.bytes() + wire::i32_le(self.session_id) + wire::i32_le(self.stream_id) + wire::i32_le(self.active_term_id) + wire::i32_le(self.term_offset) + wire::i32_le(self.length)
    }

    /// The header that bytes encode.
    pub open spec fn decoded(s: Seq<u8>) -> Self {
        NakHeader {
            frame_header: FrameHeader::decoded(s),
            session_id: wire::i32_at(s, 8),
            stream_id: wire::i32_at(s, 12),
            active_term_id: wire::i32_at(s, 16),
            term_offset: wire::i32_at(s, 20),
            length: wire::i32_at(s, 24),
        }
    }

    /// Reads the header, `None` if the buffer is too short.
    pub fn parse(buf: &[u8]) -> (r: Option<Self>)
        ensures
            r == if buf@.len() < NAK_TOTAL_LENGTH {
                None
            } else {
                Some(Self::decoded(buf@))
            },
    {
        if buf.len() < NAK_TOTAL_LENGTH {
            return None;
        }
        match FrameHeader::parse(buf) {
            Some(frame_header) => Some(
                NakHeader {
                    frame_header,
                    session_id: wire::read_i32(buf, 8),
                    stream_id: wire::read_i32(buf, 12),
                    active_term_id: wire::read_i32(buf, 16),
                    term_offset: wire::read_i32(buf, 20),
                    length: wire::read_i32(buf, 24),
                },
            ),
            None => None,
        }
    }

    /// Writes the header at the front of the buffer.
    pub fn write(&self, buf: &mut [u8])
        requires
            old(buf)@.len() >= NAK_TOTAL_LENGTH,
        ensures
            final(buf)@ == wire::splice(old(buf)@, 0, self.bytes()),
    {
        self.frame_header.write(buf);
        wire::write_i32(buf, 8, self.session_id);
        wire::write_i32(buf, 12, self.stream_id);
        wire::write_i32(buf, 16, self.active_term_id);
        wire::write_i32(buf, 20, self.term_offset);
        wire::write_i32(buf, 24, self.length);
        assert(buf@ =~= wire::splice(old(buf)@, 0, self.bytes()));
    }
}

/// What `NakHeader::write` wrote, `NakHeader::parse` gives back.
pub proof fn law_nak_header_write_parse(h: NakHeader, s: Seq<u8>)
    requires
        s.len() >= NAK_TOTAL_LENGTH,
    ensures
        NakHeader::decoded(wire::splice(s, 0, h.bytes())) == h,
        wire::splice(s, 0, h.bytes()).len() == s.len(),
{
    let t = wire::splice(s, 0, h.bytes());
    let inner = wire::splice(s, 0, h.frame_header.bytes());
    law_frame_header_write_parse(h.frame_header, s);
    assert forall|i: int| 0 <= i < 8 implies inner[i] == #[trigger] t[i] by {}
    lemma_frame_header_same(inner, t);
    assert forall|i: int| 0 <= i < 4 implies t[8 + i] == #[trigger] wire::i32_le(h.session_id)[i] by {}
    wire::lemma_i32_at_le(t, 8, h.session_id);
    assert forall|i: int| 0 <= i < 4 implies t[12 + i] == #[trigger] wire::i32_le(h.stream_id)[i] by {}
    wire::lemma_i32_at_le(t, 12, h.stream_id);
    assert forall|i: int| 0 <= i < 4 implies t[16 + i] == #[trigger] wire::i32_le(h.active_term_id)[i] by {}
    wire::lemma_i32_at_le(t, 16, h.active_term_id);
    assert forall|i: int| 0 <= i < 4 implies t[20 + i] == #[trigger] wire::i32_le(h.term_offset)[i] by {}
    wire::lemma_i32_at_le(t, 20, h.term_offset);
    assert forall|i: int| 0 <= i < 4 implies t[24 + i] == #[trigger] wire::i32_le(h.length)[i] by {}
    wire::lemma_i32_at_le(t, 24, h.length);
}

/// What `NakHeader::parse` reads, `NakHeader::write` writes back byte for byte.
pub proof fn law_nak_header_parse_write(s: Seq<u8>)
    requires
        s.len() >= NAK_TOTAL_LENGTH,
    ensures
        NakHeader::decoded(s).bytes() == s.subrange(0, NAK_TOTAL_LENGTH as int),
{
    let h = NakHeader::decoded(s);
    law_frame_header_parse_write(s);
    assert forall|i: int| 0 <= i < 8 implies h.frame_header.bytes()[i] == #[trigger] s[i] by {
        assert(s.subrange(0, 8)[i] == s[i]);
    }
    wire::lemma_i32_le_at(s, 8);
    wire::lemma_i32_le_at(s, 12);
    wire::lemma_i32_le_at(s, 16);
    wire::lemma_i32_le_at(s, 20);
    wire::lemma_i32_le_at(s, 24);
    assert forall|i: int| 0 <= i < 28 implies h.bytes()[i] == #[trigger] s[i] by {
        if 8 <= i < 12 {
            assert(s[8 + (i - 8)] == wire::i32_le(h.session_id)[i - 8]);
        }
        if 12 <= i < 16 {
            assert(s[12 + (i - 12)] == wire::i32_le(h.stream_id)[i - 12]);
        }
        if 16 <= i < 20 {
            assert(s[16 + (i - 16)] == wire::i32_le(h.active_term_id)[i - 16]);
        }
        if 20 <= i < 24 {
            assert(s[20 + (i - 20)] == wire::i32_le(h.term_offset)[i - 20]);
        }
        if 24 <= i < 28 {
            assert(s[24 + (i - 24)] == wire::i32_le(h.length)[i - 24]);
        }
    }
    assert(h.bytes() =~= s.subrange(0, NAK_TOTAL_LENGTH as int));
}

/// 40-byte setup frame.
///
/// Layout, little-endian:
///
/// ```text
///   offset  0: frame header
///   offset  8: term_offset (i32)
///   offset 12: session_id (i32)
///   offset 16: stream_id (i32)
///   offset 20: initial_term_id (i32)
///   offset 24: active_term_id (i32)
///   offset 28: term_length (i32)
///   offset 32: mtu (i32)
///   offset 36: ttl (i32)
/// ```
#[derive(Clone, Copy, Debug, PartialEq, Eq, Structural)]
pub struct SetupHeader {
    pub frame_header: FrameHeader,
    pub term_offset: i32,
    pub session_id: i32,
    pub stream_id: i32,
    pub initial_term_id: i32,
    pub active_term_id: i32,
    pub term_length: i32,
    pub mtu: i32,
    pub ttl: i32,
}

impl SetupHeader {
    /// The bytes that encode the header.
    pub open spec fn bytes(self) -> Seq<u8> {
        self.frame_header.bytes() + wire::i32_le(self.term_offset) + wire::i32_le(self.session_id) + wire::i32_le(self.stream_id) + wire::i32_le(self.initial_term_id) + wire::i32_le(self.active_term_id) + wire::i32_le(self.term_length) + wire::i32_le(self.mtu) + wire::i32_le(self.ttl)
    }

    /// The header that bytes encode.
    pub open spec fn decoded(s: Seq<u8>) -> Self {
        SetupHeader {
            frame_header: FrameHeader::decoded(s),
            term_offset: wire::i32_at(s, 8),
            session_id: wire::i32_at(s, 12),
            stream_id: wire::i32_at(s, 16),
            initial_term_id: wire::i32_at(s, 20),
            active_term_id: wire::i32_at(s, 24),
            term_length: wire::i32_at(s, 28),
            mtu: wire::i32_at(s, 32),
            ttl: wire::i32_at(s, 36),
        }
    }

    /// Reads the header, `None` if the buffer is too short.
    pub fn parse(buf: &[u8]) -> (r: Option<Self>)
        ensures
            r == if buf@.len() < SETUP_TOTAL_LENGTH {
                None
            } else {
                Some(Self::decoded(buf@))
            },
    {
        if buf.len() < SETUP_TOTAL_LENGTH {
            return None;
        }
        match FrameHeader::parse(buf) {
            Some(frame_header) => Some(
                SetupHeader {
                    frame_header,
                    term_offset: wire::read_i32(buf, 8),
                    session_id: wire::read_i32(buf, 12),
                    stream_id: wire::read_i32(buf, 16),
                    initial_term_id: wire::read_i32(buf, 20),
                    active_term_id: wire::read_i32(buf, 24),
                    term_length: wire::read_i32(buf, 28),
                    mtu: wire::read_i32(buf, 32),
                    ttl: wire::read_i32(buf, 36),
                },
            ),
            None => None,
        }
    }

    /// Writes the header at the front of the buffer.
    pub fn write(&self, buf: &mut [u8])
        requires
            old(buf)@.len() >= SETUP_TOTAL_LENGTH,
        ensures
            final(buf)@ == wire::splice(old(buf)@, 0, self.bytes()),
    {
        self.frame_header.write(buf);
        wire::write_i32(buf, 8, self.term_offset);
        wire::write_i32(buf, 12, self.session_id);
        wire::write_i32(buf, 16, self.stream_id);
        wire::write_i32(buf, 20, self.initial_term_id);
        wire::write_i32(buf, 24, self.active_term_id);
        wire::write_i32(buf, 28, self.term_length);
        wire::write_i32(buf, 32, self.mtu);
        wire::write_i32(buf, 36, self.ttl);
        assert(buf@ =~= wire::splice(old(buf)@, 0, self.bytes()));
    }
}

/// What `SetupHeader::write` wrote, `SetupHeader::parse` gives back.
pub proof fn law_setup_header_write_parse(h: SetupHeader, s: Seq<u8>)
    requires
        s.len() >= SETUP_TOTAL_LENGTH,
    ensures
        SetupHeader::decoded(wire::splice(s, 0, h.bytes())) == h,
        wire::splice(s, 0, h.bytes()).len() == s.len(),
{
    let t = wire::splice(s, 0, h.bytes());
    let inner = wire::splice(s, 0, h.frame_header.bytes());
    law_frame_header_write_parse(h.frame_header, s);
    assert forall|i: int| 0 <= i < 8 implies inner[i] == #[trigger] t[i] by {}
    lemma_frame_header_same(inner, t);
    assert forall|i: int| 0 <= i < 4 implies t[8 + i] == #[trigger] wire::i32_le(h.term_offset)[i] by {}
    wire::lemma_i32_at_le(t, 8, h.term_offset);
    assert forall|i: int| 0 <= i < 4 implies t[12 + i] == #[trigger] wire::i32_le(h.session_id)[i] by {}
    wire::lemma_i32_at_le(t, 12, h.session_id);
    assert forall|i: int| 0 <= i < 4 implies t[16 + i] == #[trigger] wire::i32_le(h.stream_id)[i] by {}
    wire::lemma_i32_at_le(t, 16, h.stream_id);
    assert forall|i: int| 0 <= i < 4 implies t[20 + i] == #[trigger] wire::i32_le(h.initial_term_id)[i] by {}
    wire::lemma_i32_at_le(t, 20, h.initial_term_id);
    assert forall|i: int| 0 <= i < 4 implies t[24 + i] == #[trigger] wire::i32_le(h.active_term_id)[i] by {}
    wire::lemma_i32_at_le(t, 24, h.active_term_id);
    assert forall|i: int| 0 <= i < 4 implies t[28 + i] == #[trigger] wire::i32_le(h.term_length)[i] by {}
    wire::lemma_i32_at_le(t, 28, h.term_length);
    assert forall|i: int| 0 <= i < 4 implies t[32 + i] == #[trigger] wire::i32_le(h.mtu)[i] by {}
    wire::lemma_i32_at_le(t, 32, h.mtu);
    assert forall|i: int| 0 <= i < 4 implies t[36 + i] == #[trigger] wire::i32_le(h.ttl)[i] by {}
    wire::lemma_i32_at_le(t, 36, h.ttl);
}

/// What `SetupHeader::parse` reads, `SetupHeader::write` writes back byte for byte.
pub proof fn law_setup_header_parse_write(s: Seq<u8>)
    requires
        s.len() >= SETUP_TOTAL_LENGTH,
    ensures
        SetupHeader::decoded(s).bytes() == s.subrange(0, SETUP_TOTAL_LENGTH as int),
{
    let h = SetupHeader::decoded(s);
    law_frame_header_parse_write(s);
    assert forall|i: int| 0 <= i < 8 implies h.frame_header.bytes()[i] == #[trigger] s[i] by {
        assert(s.subrange(0, 8)[i] == s[i]);
    }
    wire::lemma_i32_le_at(s, 8);
    wire::lemma_i32_le_at(s, 12);
    wire::lemma_i32_le_at(s, 16);
    wire::lemma_i32_le_at(s, 20);
    wire::lemma_i32_le_at(s, 24);
    wire::lemma_i32_le_at(s, 28);
    wire::lemma_i32_le_at(s, 32);
    wire::lemma_i32_le_at(s, 36);
    assert forall|i: int| 0 <= i < 40 implies h.bytes()[i] == #[trigger] s[i] by {
        if 8 <= i < 12 {
            assert(s[8 + (i - 8)] == wire::i32_le(h.term_offset)[i - 8]);
        }
        if 12 <= i < 16 {
            assert(s[12 + (i - 12)] == wire::i32_le(h.session_id)[i - 12]);
        }
        if 16 <= i < 20 {
            assert(s[16 + (i - 16)] == wire::i32_le(h.stream_id)[i - 16]);
        }
        if 20 <= i < 24 {
            assert(s[20 + (i - 20)] == wire::i32_le(h.initial_term_id)[i - 20]);
        }
        if 24 <= i < 28 {
            assert(s[24 + (i - 24)] == wire::i32_le(h.active_term_id)[i - 24]);
        }
        if 28 <= i < 32 {
            assert(s[28 + (i - 28)] == wire::i32_le(h.term_length)[i - 28]);
        }
        if 32 <= i < 36 {
            assert(s[32 + (i - 32)] == wire::i32_le(h.mtu)[i - 32]);
        }
        if 36 <= i < 40 {
            assert(s[36 + (i - 36)] == wire::i32_le(h.ttl)[i - 36]);
        }
    }
    assert(h.bytes() =~= s.subrange(0, SETUP_TOTAL_LENGTH as int));
}

/// 40-byte RTT measurement frame.
///
/// Layout, little-endian:
///
/// ```text
///   offset  0: frame header
///   offset  8: session_id (i32)
///   offset 12: stream_id (i32)
///   offset 16: echo_timestamp (i64)
///   offset 24: reception_delta (i64)
///   offset 32: receiver_id (i64)
/// ```
#[derive(Clone, Copy, Debug, PartialEq, Eq, Structural)]
pub struct RttmHeader {
    pub frame_header: FrameHeader,
    pub session_id: i32,
    pub stream_id: i32,
    pub echo_timestamp: i64,
    pub reception_delta: i64,
    pub receiver_id: i64,
}

impl RttmHeader {
    /// The bytes that encode the header.
    pub open spec fn bytes(self) -> Seq<u8> {
        self.frame_header.bytes() + wire::i32_le(self.session_id) + wire::i32_le(self.stream_id) + wire::i64_le(self.echo_timestamp) + wire::i64_le(self.reception_delta) + wire::i64_le(self.receiver_id)
    }

    /// The header that bytes encode.
    pub open spec fn decoded(s: Seq<u8>) -> Self {
        RttmHeader {
            frame_header: FrameHeader::decoded(s),
            session_id: wire::i32_at(s, 8),
            stream_id: wire::i32_at(s, 12),
            echo_timestamp: wire::i64_at(s, 16),
            reception_delta: wire::i64_at(s, 24),
            receiver_id: wire::i64_at(s, 32),
        }
    }

    /// Reads the header, `None` if the buffer is too short.
    pub fn parse(buf: &[u8]) -> (r: Option<Self>)
        ensures
            r == if buf@.len() < RTTM_TOTAL_LENGTH {
                None
            } else {
                Some(Self::decoded(buf@))
            },
    {
        if buf.len() < RTTM_TOTAL_LENGTH {
            return None;
        }
        match FrameHeader::parse(buf) {
            Some(frame_header) => Some(
                RttmHeader {
                    frame_header,
                    session_id: wire::read_i32(buf, 8),
                    stream_id: wire::read_i32(buf, 12),
                    echo_timestamp: wire::read_i64(buf, 16),
                    reception_delta: wire::read_i64(buf, 24),
                    receiver_id: wire::read_i64(buf, 32),
                },
            ),
            None => None,
        }
    }

    /// Writes the header at the front of the buffer.
    pub fn write(&self, buf: &mut [u8])
        requires
            old(buf)@.len() >= RTTM_TOTAL_LENGTH,
        ensures
            final(buf)@ == wire::splice(old(buf)@, 0, self.bytes()),
    {
        self.frame_header.write(buf);
        wire::write_i32(buf, 8, self.session_id);
        wire::write_i32(buf, 12, self.stream_id);
        wire::write_i64(buf, 16, self.echo_timestamp);
        wire::write_i64(buf, 24, self.reception_delta);
        wire::write_i64(buf, 32, self.receiver_id);
        assert(buf@ =~= wire::splice(old(buf)@, 0, self.bytes()));
    }
}

/// What `RttmHeader::write` wrote, `RttmHeader::parse` gives back.
pub proof fn law_rttm_header_write_parse(h: RttmHeader, s: Seq<u8>)
    requires
        s.len() >= RTTM_TOTAL_LENGTH,
    ensures
        RttmHeader::decoded(wire::splice(s, 0, h.bytes())) == h,
        wire::splice(s, 0, h.bytes()).len() == s.len(),
{
    let t = wire::splice(s, 0, h.bytes());
    let inner = wire::splice(s, 0, h.frame_header.bytes());
    law_frame_header_write_parse(h.frame_header, s);
    assert forall|i: int| 0 <= i < 8 implies inner[i] == #[trigger] t[i] by {}
    lemma_frame_header_same(inner, t);
    assert forall|i: int| 0 <= i < 4 implies t[8 + i] == #[trigger] wire::i32_le(h.session_id)[i] by {}
    wire::lemma_i32_at_le(t, 8, h.session_id);
    assert forall|i: int| 0 <= i < 4 implies t[12 + i] == #[trigger] wire::i32_le(h.stream_id)[i] by {}
    wire::lemma_i32_at_le(t, 12, h.stream_id);
    assert forall|i: int| 0 <= i < 8 implies t[16 + i] == #[trigger] wire::i64_le(h.echo_timestamp)[i] by {}
    wire::lemma_i64_at_le(t, 16, h.echo_timestamp);
    assert forall|i: int| 0 <= i < 8 implies t[24 + i] == #[trigger] wire::i64_le(h.reception_delta)[i] by {}
    wire::lemma_i64_at_le(t, 24, h.reception_delta);
    assert forall|i: int| 0 <= i < 8 implies t[32 + i] == #[trigger] wire::i64_le(h.receiver_id)[i] by {}
    wire::lemma_i64_at_le(t, 32, h.receiver_id);
}

/// What `RttmHeader::parse` reads, `RttmHeader::write` writes back byte for byte.
pub proof fn law_rttm_header_parse_write(s: Seq<u8>)
    requires
        s.len() >= RTTM_TOTAL_LENGTH,
    ensures
        RttmHeader::decoded(s).bytes() == s.subrange(0, RTTM_TOTAL_LENGTH as int),
{
    let h = RttmHeader::decoded(s);
    law_frame_header_parse_write(s);
    assert forall|i: int| 0 <= i < 8 implies h.frame_header.bytes()[i] == #[trigger] s[i] by {
        assert(s.subrange(0, 8)[i] == s[i]);
    }
    wire::lemma_i32_le_at(s, 8);
    wire::lemma_i32_le_at(s, 12);
    wire::lemma_i64_le_at(s, 16);
    wire::lemma_i64_le_at(s, 24);
    wire::lemma_i64_le_at(s, 32);
    assert forall|i: int| 0 <= i < 40 implies h.bytes()[i] == #[trigger] s[i] by {
        if 8 <= i < 12 {
            assert(s[8 + (i - 8)] == wire::i32_le(h.session_id)[i - 8]);
        }
        if 12 <= i < 16 {
            assert(s[12 + (i - 12)] == wire::i32_le(h.stream_id)[i - 12]);
        }
        if 16 <= i < 24 {
            assert(s[16 + (i - 16)] == wire::i64_le(h.echo_timestamp)[i - 16]);
        }
        if 24 <= i < 32 {
            assert(s[24 + (i - 24)] == wire::i64_le(h.reception_delta)[i - 24]);
        }
        if 32 <= i < 40 {
            assert(s[32 + (i - 32)] == wire::i64_le(h.receiver_id)[i - 32]);
        }
    }
    assert(h.bytes() =~= s.subrange(0, RTTM_TOTAL_LENGTH as int));
}

impl DataHeader {
    /// The bytes behind the header, up to the frame length. Empty if the frame
    /// has none or is cut off.
    pub fn payload<'a>(&self, buf: &'a [u8]) -> (r: &'a [u8])
        ensures
            r@ == if DATA_HEADER_LENGTH < self.frame_header.frame_length <= buf@.len() {
                buf@.subrange(
                    DATA_HEADER_LENGTH as int,
                    self.frame_header.frame_length as int,
                )
            } else {
                Seq::empty()
            },
    {
        let frame_length: i32 = self.frame_header.frame_length;
        if frame_length > 32 && frame_length as usize <= buf.len() {
            slice_subrange(buf, DATA_HEADER_LENGTH, frame_length as usize)
        } else {
            slice_subrange(buf, 0, 0)
        }
    }

    /// Opens a buffer that holds a data frame for changes to its header, `None`
    /// if it is too short.
    pub fn parse_mut<'a>(buf: &'a mut [u8]) -> (r: Option<DataHeaderMut<'a>>)
        ensures
            r is Some <==> old(buf)@.len() >= DATA_HEADER_LENGTH,
            match r {
                Some(h) => h.buf@ == old(buf)@ && final(buf)@ == final(h.buf)@,
                None => final(buf)@ == old(buf)@,
            },
    {
        if buf.len() < DATA_HEADER_LENGTH {
            return None;
        }
        Some(DataHeaderMut { buf })
    }
}

/// A buffer that holds a data frame, open for changes to its header.
#[derive(Debug)]
pub struct DataHeaderMut<'a> {
    pub buf: &'a mut [u8],
}

impl<'a> DataHeaderMut<'a> {
    /// The header as it stands.
    pub fn get(&self) -> (r: DataHeader)
        requires
            self.buf@.len() >= DATA_HEADER_LENGTH,
        ensures
            r == DataHeader::decoded(old(self.buf)@),
    {
        DataHeader {
            frame_header: FrameHeader {
                frame_length: wire::read_i32(self.buf, 0),
                version: self.buf[4],
                flags: self.buf[5],
                frame_type: wire::read_u16(self.buf, 6),
            },
            term_offset: wire::read_i32(self.buf, 8),
            session_id: wire::read_i32(self.buf, 12),
            stream_id: wire::read_i32(self.buf, 16),
            term_id: wire::read_i32(self.buf, 20),
            reserved_value: wire::read_i64(self.buf, 24),
        }
    }

    /// Replaces the header; what follows it stays.
    pub fn set(&mut self, header: &DataHeader)
        requires
            old(self).buf@.len() >= DATA_HEADER_LENGTH,
        ensures
            final(self).buf@ == wire::splice(old(self).buf@, 0, header.bytes()),
            final(final(self).buf)@ == final(old(self).buf)@,
    {
        header.write(self.buf);
    }
}

/// Kind of a frame.
#[derive(Debug, Clone, Copy, PartialEq, Eq, Structural)]
pub enum FrameType {
    Pad,
    Data,
    Nak,
    StatusMessage,
    Error,
    Setup,
    Rttm,
    Resolution,
    Heartbeat,
    Unknown(u16),
}

impl FrameType {
    /// The kind that a type field stands for.
    pub open spec fn of(val: u16) -> FrameType {
        if val == FRAME_TYPE_PAD {
            FrameType::Pad
        } else if val == FRAME_TYPE_DATA {
            FrameType::Data
        } else if val == FRAME_TYPE_NAK {
            FrameType::Nak
        } else if val == FRAME_TYPE_SM {
            FrameType::StatusMessage
        } else if val == FRAME_TYPE_ERR {
            FrameType::Error
        } else if val == FRAME_TYPE_SETUP {
            FrameType::Setup
        } else if val == FRAME_TYPE_RTTM {
            FrameType::Rttm
        } else if val == FRAME_TYPE_RESOLUTION {
            FrameType::Resolution
        } else if val == FRAME_TYPE_HEARTBEAT {
            FrameType::Heartbeat
        } else {
            FrameType::Unknown(val)
        }
    }
}

impl From<u16> for FrameType {
    fn from(val: u16) -> (r: Self) {
        if val == FRAME_TYPE_PAD {
            FrameType::Pad
        } else if val == FRAME_TYPE_DATA {
            FrameType::Data
        } else if val == FRAME_TYPE_NAK {
            FrameType::Nak
        } else if val == FRAME_TYPE_SM {
            FrameType::StatusMessage
        } else if val == FRAME_TYPE_ERR {
            FrameType::Error
        } else if val == FRAME_TYPE_SETUP {
            FrameType::Setup
        } else if val == FRAME_TYPE_RTTM {
            FrameType::Rttm
        } else if val == FRAME_TYPE_RESOLUTION {
            FrameType::Resolution
        } else if val == FRAME_TYPE_HEARTBEAT {
            FrameType::Heartbeat
        } else {
            FrameType::Unknown(val)
        }
    }
}

impl vstd::std_specs::convert::FromSpecImpl<u16> for FrameType {
    open spec fn obeys_from_spec() -> bool {
        true
    }

    open spec fn from_spec(val: u16) -> Self {
        FrameType::of(val)
    }
}

/// Kind of the frame in a buffer, `None` if the buffer is too short for a frame
/// header.
pub fn classify_frame(buf: &[u8]) -> (r: Option<FrameType>)
    ensures
        r == if buf@.len() < FRAME_HEADER_LENGTH {
            None
        } else {
            Some(FrameType::of(FrameHeader::decoded(buf@).frame_type))
        },
{
    match FrameHeader::parse(buf) {
        Some(hdr) => Some(FrameType::from(hdr.frame_type)),
        None => None,
    }
}

/// Size of a socket address in its kernel form, any family.
pub const SOCKADDR_STORAGE_LENGTH: usize = 128;

/// Address family of IPv4.
pub const AF_INET: u16 = 2;

/// Address family of IPv6.
pub const AF_INET6: u16 = 10;

/// Size of an IPv4 socket address in its kernel form.
pub const SOCKADDR_IN_LENGTH: u32 = 16;

/// Size of an IPv6 socket address in its kernel form.
pub const SOCKADDR_IN6_LENGTH: u32 = 28;

/// A socket address in the form in which the kernel takes and gives it: the
/// family in host (little-endian) order, then the port and, for IPv4 at offset
/// 4, for IPv6 at offset 8, the address in network order.
#[derive(Clone, Copy, Debug)]
pub struct SockaddrStorage {
    pub bytes: [u8; SOCKADDR_STORAGE_LENGTH],
}

/// An IP address and a port.
#[allow(inconsistent_fields)]
#[derive(Clone, Copy, Debug, PartialEq, Eq)]
pub enum SocketAddress {
    V4 { octets: [u8; 4], port: u16 },
    V6 { octets: [u8; 16], port: u16 },
}

impl SocketAddress {
    /// Octets of the address, in network order.
    pub open spec fn octets(self) -> Seq<u8> {
        match self {
            SocketAddress::V4 { octets, .. } => octets@,
            SocketAddress::V6 { octets, .. } => octets@,
        }
    }

    /// Port.
    pub open spec fn port(self) -> u16 {
        match self {
            SocketAddress::V4 { port, .. } => port,
            SocketAddress::V6 { port, .. } => port,
        }
    }

    /// Bytes of the kernel form, family first.
    pub open spec fn kernel_bytes(self) -> Seq<u8> {
        let port = seq![(self.port() / 0x100) as u8, (self.port() % 0x100) as u8];
        match self {
            SocketAddress::V4 { octets, .. } => wire::u16_le(AF_INET) + port + octets@,
            SocketAddress::V6 { octets, .. } => wire::u16_le(AF_INET6) + port + wire::zeros(4)
                + octets@,
        }
    }
}

/// The port in a kernel socket address.
pub open spec fn sockaddr_port(s: Seq<u8>) -> u16 {
    (0x100 * s[2] + s[3]) as u16
}

/// Copies 4 or 16 octets.
fn octets_at<const N: usize>(bytes: &[u8; SOCKADDR_STORAGE_LENGTH], off: usize) -> (r: [u8; N])
    requires
        off + N <= SOCKADDR_STORAGE_LENGTH,
    ensures
        r@ == bytes@.subrange(off as int, off + N),
{
    let mut r: [u8; N] = [0u8; N];
    let mut i: usize = 0;
    while i < N
        invariant
            i <= N,
            off + N <= SOCKADDR_STORAGE_LENGTH,
            forall|k: int| 0 <= k < i ==> #[trigger] r@[k] == bytes@[off + k],
        decreases N - i,
    {
        r[i] = bytes[off + i];
        i += 1;
    }
    assert(r@ =~= bytes@.subrange(off as int, off + N));
    r
}

/// Turns a kernel socket address of the given length into an IP address and a
/// port. `None` if it is too short for its family or of another family.
pub fn sockaddr_to_std(storage: &SockaddrStorage, len: u32) -> (r: Option<SocketAddress>)
    ensures
        ({
            let s = storage.bytes@;
            let family = wire::u16_at(s, 0);
            &&& r is Some <==> (family == AF_INET && len >= SOCKADDR_IN_LENGTH) || (family
                == AF_INET6 && len >= SOCKADDR_IN6_LENGTH)
            &&& r is Some && family == AF_INET ==> r->0 is V4 && r->0.octets() == s.subrange(4, 8)
            &&& r is Some && family == AF_INET6 ==> r->0 is V6 && r->0.octets() == s.subrange(
                8,
                24,
            )
            &&& r is Some ==> r->0.port() == sockaddr_port(s)
        }),
{
    if len < 2 {
        return None;
    }
    let bytes = &storage.bytes;
    let family: u16 = (bytes[0] as u16) + 0x100 * (bytes[1] as u16);
    let port: u16 = 0x100 * (bytes[2] as u16) + (bytes[3] as u16);
    if family == AF_INET {
        if len < SOCKADDR_IN_LENGTH {
            return None;
        }
        Some(SocketAddress::V4 { octets: octets_at::<4>(bytes, 4), port })
    } else if family == AF_INET6 {
        if len < SOCKADDR_IN6_LENGTH {
            return None;
        }
        Some(SocketAddress::V6 { octets: octets_at::<16>(bytes, 8), port })
    } else {
        None
    }
}

/// Turns an IP address and a port into a kernel socket address, with its length.
pub fn sockaddr_to_storage(addr: &SocketAddress) -> (r: (SockaddrStorage, u32))
    ensures
        r.0.bytes@ == wire::splice(
            wire::zeros(SOCKADDR_STORAGE_LENGTH as nat),
            0,
            addr.kernel_bytes(),
        ),
        r.1 == match addr {
            SocketAddress::V4 { .. } => SOCKADDR_IN_LENGTH,
            SocketAddress::V6 { .. } => SOCKADDR_IN6_LENGTH,
        },
{
    let mut bytes: [u8; SOCKADDR_STORAGE_LENGTH] = [0u8; SOCKADDR_STORAGE_LENGTH];
    let len: u32 = match addr {
        SocketAddress::V4 { octets, port } => {
            wire::write_u16(&mut bytes, 0, AF_INET);
            bytes[2] = (*port / 0x100) as u8;
            bytes[3] = (*port % 0x100) as u8;
            wire::write_bytes(&mut bytes, 4, octets);
            SOCKADDR_IN_LENGTH
        },
        SocketAddress::V6 { octets, port } => {
            wire::write_u16(&mut bytes, 0, AF_INET6);
            bytes[2] = (*port / 0x100) as u8;
            bytes[3] = (*port % 0x100) as u8;
            wire::write_bytes(&mut bytes, 8, octets);
            SOCKADDR_IN6_LENGTH
        },
    };
    assert(bytes@ =~= wire::splice(
        wire::zeros(SOCKADDR_STORAGE_LENGTH as nat),
        0,
        addr.kernel_bytes(),
    ));
    (SockaddrStorage { bytes }, len)
}

/// An address survives the way into its kernel form and back.
pub proof fn law_sockaddr_round_trip(addr: SocketAddress)
    ensures
        ({
            let s = wire::splice(
                wire::zeros(SOCKADDR_STORAGE_LENGTH as nat),
                0,
                addr.kernel_bytes(),
            );
            &&& wire::u16_at(s, 0) == if addr is V4 {
                AF_INET
            } else {
                AF_INET6
            }
            &&& sockaddr_port(s) == addr.port()
            &&& addr is V4 ==> s.subrange(4, 8) == addr.octets()
            &&& addr is V6 ==> s.subrange(8, 24) == addr.octets()
        }),
{
    let s = wire::splice(wire::zeros(SOCKADDR_STORAGE_LENGTH as nat), 0, addr.kernel_bytes());
    let family = if addr is V4 {
        AF_INET
    } else {
        AF_INET6
    };
    assert(s[0] == wire::u16_le(family)[0] && s[1] == wire::u16_le(family)[1]);
    wire::lemma_u16_at_le(s, 0, family);
    assert(s[2] == (addr.port() / 0x100) as u8 && s[3] == (addr.port() % 0x100) as u8);
    if addr is V4 {
        assert(s.subrange(4, 8) =~= addr.octets());
    } else {
        assert(s.subrange(8, 24) =~= addr.octets());
    }
}

/// The bytes of a frame header: each field at its place in the first 8 bytes, and nothing
/// else touched.
pub proof fn law_frame_header_is_laid_out(h: &FrameHeader, before: Seq<u8>, after: Seq<u8>)
    requires
        before.len() >= 8,
        exists|buf: &mut [u8]|
            (*buf)@ == before && (*final(buf))@ == after && #[trigger] call_ensures(
                FrameHeader::write,
                (h, buf),
                (),
            ),
    ensures
        after.len() == before.len(),
        wire::i32_at(after, 0) == h.frame_length,
        after[4] == h.version,
        after[5] == h.flags,
        wire::u16_at(after, 6) == h.frame_type,
        forall|k: int| 8 <= k < before.len() ==> #[trigger] after[k] == before[k],
{
    law_frame_header_write_parse(*h, before);
}

/// From 8 bytes or more a frame header is read, each field from its place; from fewer
/// nothing.
pub proof fn law_frame_header_is_read(buf: &[u8], r: Option<FrameHeader>)
    requires
        call_ensures(FrameHeader::parse, (buf,), r),
    ensures
        r is Some <==> buf@.len() >= 8,
        r matches Some(h) ==> {
            &&& h.frame_length == wire::i32_at(buf@, 0)
            &&& h.version == buf@[4]
            &&& h.flags == buf@[5]
            &&& h.frame_type == wire::u16_at(buf@, 6)
        },
{
}

/// The bytes of a data header: each field at its place in the first 32 bytes, and nothing
/// else touched.
pub proof fn law_data_header_is_laid_out(h: &DataHeader, before: Seq<u8>, after: Seq<u8>)
    requires
        before.len() >= 32,
        exists|buf: &mut [u8]|
            (*buf)@ == before && (*final(buf))@ == after && #[trigger] call_ensures(
                DataHeader::write,
                (h, buf),
                (),
            ),
    ensures
        after.len() == before.len(),
        wire::i32_at(after, 0) == h.frame_header.frame_length,
        after[4] == h.frame_header.version,
        after[5] == h.frame_header.flags,
        wire::u16_at(after, 6) == h.frame_header.frame_type,
        wire::i32_at(after, 8) == h.term_offset,
        wire::i32_at(after, 12) == h.session_id,
        wire::i32_at(after, 16) == h.stream_id,
        wire::i32_at(after, 20) == h.term_id,
        wire::i64_at(after, 24) == h.reserved_value,
        forall|k: int| 32 <= k < before.len() ==> #[trigger] after[k] == before[k],
{
    law_data_header_write_parse(*h, before);
}

/// From 32 bytes or more a data header is read, each field from its place; from fewer
/// nothing.
pub proof fn law_data_header_is_read(buf: &[u8], r: Option<DataHeader>)
    requires
        call_ensures(DataHeader::parse, (buf,), r),
    ensures
        r is Some <==> buf@.len() >= 32,
        r matches Some(h) ==> {
            &&& h.frame_header.frame_length == wire::i32_at(buf@, 0)
            &&& h.frame_header.version == buf@[4]
            &&& h.frame_header.flags == buf@[5]
            &&& h.frame_header.frame_type == wire::u16_at(buf@, 6)
            &&& h.term_offset == wire::i32_at(buf@, 8)
            &&& h.session_id == wire::i32_at(buf@, 12)
            &&& h.stream_id == wire::i32_at(buf@, 16)
            &&& h.term_id == wire::i32_at(buf@, 20)
            &&& h.reserved_value == wire::i64_at(buf@, 24)
        },
{
}

/// The bytes of a status message: each field at its place in the first 36 bytes, and nothing
/// else touched.
pub proof fn law_status_message_is_laid_out(h: &StatusMessage, before: Seq<u8>, after: Seq<u8>)
    requires
        before.len() >= 36,
        exists|buf: &mut [u8]|
            (*buf)@ == before && (*final(buf))@ == after && #[trigger] call_ensures(
                StatusMessage::write,
                (h, buf),
                (),
            ),
    ensures
        after.len() == before.len(),
        wire::i32_at(after, 0) == h.frame_header.frame_length,
        after[4] == h.frame_header.version,
        after[5] == h.frame_header.flags,
        wire::u16_at(after, 6) == h.frame_header.frame_type,
        wire::i32_at(after, 8) == h.session_id,
        wire::i32_at(after, 12) == h.stream_id,
        wire::i32_at(after, 16) == h.consumption_term_id,
        wire::i32_at(after, 20) == h.consumption_term_offset,
        wire::i32_at(after, 24) == h.receiver_window,
        wire::i64_at(after, 28) == h.receiver_id,
        forall|k: int| 36 <= k < before.len() ==> #[trigger] after[k] == before[k],
{
    law_status_message_write_parse(*h, before);
}

/// From 36 bytes or more a status message is read, each field from its place; from fewer
/// nothing.
pub proof fn law_status_message_is_read(buf: &[u8], r: Option<StatusMessage>)
    requires
        call_ensures(StatusMessage::parse, (buf,), r),
    ensures
        r is Some <==> buf@.len() >= 36,
        r matches Some(h) ==> {
            &&& h.frame_header.frame_length == wire::i32_at(buf@, 0)
            &&& h.frame_header.version == buf@[4]
            &&& h.frame_header.flags == buf@[5]
            &&& h.frame_header.frame_type == wire::u16_at(buf@, 6)
            &&& h.session_id == wire::i32_at(buf@, 8)
            &&& h.stream_id == wire::i32_at(buf@, 12)
            &&& h.consumption_term_id == wire::i32_at(buf@, 16)
            &&& h.consumption_term_offset == wire::i32_at(buf@, 20)
            &&& h.receiver_window == wire::i32_at(buf@, 24)
            &&& h.receiver_id == wire::i64_at(buf@, 28)
        },
{
}

/// The bytes of a request for lost data: each field at its place in the first 28 bytes, and nothing
/// else touched.
pub proof fn law_nak_header_is_laid_out(h: &NakHeader, before: Seq<u8>, after: Seq<u8>)
    requires
        before.len() >= 28,
        exists|buf: &mut [u8]|
            (*buf)@ == before && (*final(buf))@ == after && #[trigger] call_ensures(
                NakHeader::write,
                (h, buf),
                (),
            ),
    ensures
        after.len() == before.len(),
        wire::i32_at(after, 0) == h.frame_header.frame_length,
        after[4] == h.frame_header.version,
        after[5] == h.frame_header.flags,
        wire::u16_at(after, 6) == h.frame_header.frame_type,
        wire::i32_at(after, 8) == h.session_id,
        wire::i32_at(after, 12) == h.stream_id,
        wire::i32_at(after, 16) == h.active_term_id,
        wire::i32_at(after, 20) == h.term_offset,
        wire::i32_at(after, 24) == h.length,
        forall|k: int| 28 <= k < before.len() ==> #[trigger] after[k] == before[k],
{
    law_nak_header_write_parse(*h, before);
}

/// From 28 bytes or more a request for lost data is read, each field from its place; from fewer
/// nothing.
pub proof fn law_nak_header_is_read(buf: &[u8], r: Option<NakHeader>)
    requires
        call_ensures(NakHeader::parse, (buf,), r),
    ensures
        r is Some <==> buf@.len() >= 28,
        r matches Some(h) ==> {
            &&& h.frame_header.frame_length == wire::i32_at(buf@, 0)
            &&& h.frame_header.version == buf@[4]
            &&& h.frame_header.flags == buf@[5]
            &&& h.frame_header.frame_type == wire::u16_at(buf@, 6)
            &&& h.session_id == wire::i32_at(buf@, 8)
            &&& h.stream_id == wire::i32_at(buf@, 12)
            &&& h.active_term_id == wire::i32_at(buf@, 16)
            &&& h.term_offset == wire::i32_at(buf@, 20)
            &&& h.length == wire::i32_at(buf@, 24)
        },
{
}

/// The bytes of a setup frame: each field at its place in the first 40 bytes, and nothing
/// else touched.
pub proof fn law_setup_header_is_laid_out(h: &SetupHeader, before: Seq<u8>, after: Seq<u8>)
    requires
        before.len() >= 40,
        exists|buf: &mut [u8]|
            (*buf)@ == before && (*final(buf))@ == after && #[trigger] call_ensures(
                SetupHeader::write,
                (h, buf),
                (),
            ),
    ensures
        after.len() == before.len(),
        wire::i32_at(after, 0) == h.frame_header.frame_length,
        after[4] == h.frame_header.version,
        after[5] == h.frame_header.flags,
        wire::u16_at(after, 6) == h.frame_header.frame_type,
        wire::i32_at(after, 8) == h.term_offset,
        wire::i32_at(after, 12) == h.session_id,
        wire::i32_at(after, 16) == h.stream_id,
        wire::i32_at(after, 20) == h.initial_term_id,
        wire::i32_at(after, 24) == h.active_term_id,
        wire::i32_at(after, 28) == h.term_length,
        wire::i32_at(after, 32) == h.mtu,
        wire::i32_at(after, 36) == h.ttl,
        forall|k: int| 40 <= k < before.len() ==> #[trigger] after[k] == before[k],
{
    law_setup_header_write_parse(*h, before);
}

/// From 40 bytes or more a setup frame is read, each field from its place; from fewer
/// nothing.
pub proof fn law_setup_header_is_read(buf: &[u8], r: Option<SetupHeader>)
    requires
        call_ensures(SetupHeader::parse, (buf,), r),
    ensures
        r is Some <==> buf@.len() >= 40,
        r matches Some(h) ==> {
            &&& h.frame_header.frame_length == wire::i32_at(buf@, 0)
            &&& h.frame_header.version == buf@[4]
            &&& h.frame_header.flags == buf@[5]
            &&& h.frame_header.frame_type == wire::u16_at(buf@, 6)
            &&& h.term_offset == wire::i32_at(buf@, 8)
            &&& h.session_id == wire::i32_at(buf@, 12)
            &&& h.stream_id == wire::i32_at(buf@, 16)
            &&& h.initial_term_id == wire::i32_at(buf@, 20)
            &&& h.active_term_id == wire::i32_at(buf@, 24)
            &&& h.term_length == wire::i32_at(buf@, 28)
            &&& h.mtu == wire::i32_at(buf@, 32)
            &&& h.ttl == wire::i32_at(buf@, 36)
        },
{
}

/// The bytes of a round trip measurement: each field at its place in the first 40 bytes, and nothing
/// else touched.
pub proof fn law_rttm_header_is_laid_out(h: &RttmHeader, before: Seq<u8>, after: Seq<u8>)
    requires
        before.len() >= 40,
        exists|buf: &mut [u8]|
            (*buf)@ == before && (*final(buf))@ == after && #[trigger] call_ensures(
                RttmHeader::write,
                (h, buf),
                (),
            ),
    ensures
        after.len() == before.len(),
        wire::i32_at(after, 0) == h.frame_header.frame_length,
        after[4] == h.frame_header.version,
        after[5] == h.frame_header.flags,
        wire::u16_at(after, 6) == h.frame_header.frame_type,
        wire::i32_at(after, 8) == h.session_id,
        wire::i32_at(after, 12) == h.stream_id,
        wire::i64_at(after, 16) == h.echo_timestamp,
        wire::i64_at(after, 24) == h.reception_delta,
        wire::i64_at(after, 32) == h.receiver_id,
        forall|k: int| 40 <= k < before.len() ==> #[trigger] after[k] == before[k],
{
    law_rttm_header_write_parse(*h, before);
}

/// From 40 bytes or more a round trip measurement is read, each field from its place; from fewer
/// nothing.
pub proof fn law_rttm_header_is_read(buf: &[u8], r: Option<RttmHeader>)
    requires
        call_ensures(RttmHeader::parse, (buf,), r),
    ensures
        r is Some <==> buf@.len() >= 40,
        r matches Some(h) ==> {
            &&& h.frame_header.frame_length == wire::i32_at(buf@, 0)
            &&& h.frame_header.version == buf@[4]
            &&& h.frame_header.flags == buf@[5]
            &&& h.frame_header.frame_type == wire::u16_at(buf@, 6)
            &&& h.session_id == wire::i32_at(buf@, 8)
            &&& h.stream_id == wire::i32_at(buf@, 12)
            &&& h.echo_timestamp == wire::i64_at(buf@, 16)
            &&& h.reception_delta == wire::i64_at(buf@, 24)
            &&& h.receiver_id == wire::i64_at(buf@, 32)
        },
{
}

/// The payload of a frame is what stands between its 32 bytes of header and its
/// length, nothing where the frame is cut off or ends with the header.
pub proof fn law_payload_follows_the_header(h: &DataHeader, buf: &[u8], r: &[u8])
    requires
        call_ensures(DataHeader::payload, (h, buf), r),
    ensures
        ({
            let length = h.frame_header.frame_length as int;
            let whole = 32 <= length <= buf@.len();
            &&& r@.len() == if whole {
                length - 32
            } else {
                0
            }
            &&& forall|k: int| 0 <= k < r@.len() ==> #[trigger] r@[k] == buf@[32 + k]
        }),
{
}

/// A frame is of the kind that its type field names, at offset 6 of a buffer of
/// 8 bytes or more.
pub proof fn law_type_field_tells_the_kind(buf: &[u8], r: Option<FrameType>)
    requires
        call_ensures(classify_frame, (buf,), r),
    ensures
        r is Some <==> buf@.len() >= 8,
        r matches Some(t) ==> {
            let field = buf@[6] + 0x100 * buf@[7];
            match t {
                FrameType::Pad => field == 0,
                FrameType::Data => field == 1,
                FrameType::Nak => field == 2,
                FrameType::StatusMessage => field == 3,
                FrameType::Error => field == 4,
                FrameType::Setup => field == 5,
                FrameType::Rttm => field == 6,
                FrameType::Resolution => field == 7,
                FrameType::Heartbeat => field == 8,
                FrameType::Unknown(val) => field == val && field > 8,
            }
        },
{
}

/// A kernel socket address of family 2 and 16 bytes or more is an IPv4 address
/// with its octets from 4 on, one of family 10 and 28 bytes or more an IPv6
/// address with its octets from 8 on; the port stands at 2, high byte first. Any
/// other is refused.
pub proof fn law_kernel_address_is_read(
    storage: &SockaddrStorage,
    len: u32,
    r: Option<SocketAddress>,
)
    requires
        call_ensures(sockaddr_to_std, (storage, len), r),
    ensures
        ({
            let s = storage.bytes@;
            let family = s[0] + 0x100 * s[1];
            &&& r is Some <==> (family == 2 && len >= 16) || (family == 10 && len >= 28)
            &&& r matches Some(SocketAddress::V4 { octets, port }) ==> {
                &&& family == 2
                &&& port == 0x100 * s[2] + s[3]
                &&& forall|k: int| 0 <= k < 4 ==> #[trigger] octets@[k] == s[4 + k]
            }
            &&& r matches Some(SocketAddress::V6 { octets, port }) ==> {
                &&& family == 10
                &&& port == 0x100 * s[2] + s[3]
                &&& forall|k: int| 0 <= k < 16 ==> #[trigger] octets@[k] == s[8 + k]
            }
        }),
{
}

/// An address that is put into its kernel form is read back from it.
pub proof fn law_kernel_address_round_trip(
    addr: &SocketAddress,
    kernel: (SockaddrStorage, u32),
    r: Option<SocketAddress>,
)
    requires
        call_ensures(sockaddr_to_storage, (addr,), kernel),
        call_ensures(sockaddr_to_std, (&kernel.0, kernel.1), r),
    ensures
        r is Some,
        addr is V4 <==> r->0 is V4,
        r->0.octets() == addr.octets(),
        r->0.port() == addr.port(),
        addr is V4 ==> kernel.1 == 16,
        addr is V6 ==> kernel.1 == 28,
{
    law_sockaddr_round_trip(*addr);
}

/// A header that is replaced stands in its bytes, and what follows it stays.
pub proof fn law_header_is_replaced<'a>(
    before: Seq<u8>,
    after: Seq<u8>,
    header: &DataHeader,
)
    requires
        before.len() >= 32,
        exists|h: &mut DataHeaderMut<'a>|
            (*h).buf@ == before && (*final(h)).buf@ == after && #[trigger] call_ensures(
                DataHeaderMut::<'a>::set,
                (h, header),
                (),
            ),
    ensures
        after.len() == before.len(),
        after == wire::splice(before, 0, header.bytes()),
        wire::i32_at(after, 0) == header.frame_header.frame_length,
        after[4] == header.frame_header.version,
        after[5] == header.frame_header.flags,
        wire::u16_at(after, 6) == header.frame_header.frame_type,
        wire::i32_at(after, 8) == header.term_offset,
        wire::i32_at(after, 12) == header.session_id,
        wire::i32_at(after, 16) == header.stream_id,
        wire::i32_at(after, 20) == header.term_id,
        wire::i64_at(after, 24) == header.reserved_value,
        forall|k: int| 32 <= k < before.len() ==> #[trigger] after[k] == before[k],
{
    law_data_header_write_parse(*header, before);
}

/// An open header is read as it stands in its bytes.
pub proof fn law_open_header_is_read<'a>(h: &DataHeaderMut<'a>, s: Seq<u8>, r: DataHeader)
    requires
        h.buf@ == s,
        call_ensures(DataHeaderMut::<'a>::get, (h,), r),
    ensures
        r.frame_header.frame_length == wire::i32_at(s, 0),
        r.frame_header.version == s[4],
        r.frame_header.flags == s[5],
        r.frame_header.frame_type == wire::u16_at(s, 6),
        r.term_offset == wire::i32_at(s, 8),
        r.session_id == wire::i32_at(s, 12),
        r.stream_id == wire::i32_at(s, 16),
        r.term_id == wire::i32_at(s, 20),
        r.reserved_value == wire::i64_at(s, 24),
{
}

} // verus!
