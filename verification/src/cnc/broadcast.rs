//! Broadcast buffer: one producer, many consumers.
//!
//! The conductor transmits responses. Each client keeps a cursor of its own and
//! reads independently of the others; one that falls more than a ring behind is
//! lapped and skips ahead to the last message.
//!
//! Layout for a data capacity `C` (a power of two), from the buffer's offset on:
//!
//! ```text
//!   [0..C)       message records
//!   [C..C+128)   trailer: tail counter at 0, latest counter at 64
//! ```
//!
//! Record, aligned to 32 bytes:
//!
//! ```text
//!   [i32 record_length | i32 msg_type | payload | zeros up to the alignment]
//! ```

use crate::cnc::position;
use crate::cnc::position::{align_record, masked_index, RECORD_ALIGNMENT};
use crate::cnc::ring_buffer;
use crate::cnc::ring_buffer::RingMessage;
use crate::wire;
use vstd::arithmetic::power2;
use vstd::prelude::*;

verus! {

broadcast use wire::lemma_u32_le_len;

/// Record header: `[i32 record_length | i32 msg_type]`.
pub const RECORD_HEADER_LENGTH: usize = 8;

/// Message type of a padding record.
pub const MSG_TYPE_PADDING: i32 = -1;

/// Bytes behind the data region that hold the counters.
pub const TRAILER_LENGTH: usize = 128;

/// Where the tail counter stands in the trailer.
pub const TAIL_COUNTER_OFFSET: usize = 0;

/// Where the latest counter stands in the trailer (a cache line of its own).
pub const LATEST_COUNTER_OFFSET: usize = 64;

/// What can go wrong with a broadcast buffer.
#[derive(Debug, Clone, Copy, PartialEq, Eq, Structural)]
pub enum BroadcastError {
    /// Capacity is not a power of two or too small, or the region is too small
    /// for it.
    InvalidCapacity,
    /// Message too large for the buffer.
    MessageTooLarge,
}

impl BroadcastError {
    /// Text of the error.
    pub open spec fn text(self) -> Seq<char> {
        match self {
            BroadcastError::InvalidCapacity => "capacity must be power-of-two >= 32"@,
            BroadcastError::MessageTooLarge => "message too large for broadcast buffer"@,
        }
    }

    /// Text of the error.
    pub fn to_string(&self) -> (r: String)
        ensures
            r@ == self.text(),
    {
        match self {
            BroadcastError::InvalidCapacity => "capacity must be power-of-two >= 32".to_owned(),
            BroadcastError::MessageTooLarge => "message too large for broadcast buffer".to_owned(),
        }
    }
}

/// Region size needed for a data capacity (capacity and trailer).
pub fn required_buffer_size(capacity: usize) -> (r: usize)
    requires
        capacity + TRAILER_LENGTH <= usize::MAX,
    ensures
        r == capacity + TRAILER_LENGTH,
{
    capacity + TRAILER_LENGTH
}

/// Bytes of a record: header, payload, zeros up to the alignment.
pub open spec fn record_bytes(msg_type: i32, payload: Seq<u8>) -> Seq<u8> {
    let length = payload.len() + RECORD_HEADER_LENGTH;
    wire::i32_le(length as i32) + wire::i32_le(msg_type) + payload + wire::zeros(
        (position::aligned(length) - length) as nat,
    )
}

/// Bytes of the header of a padding record.
pub open spec fn padding_header(length: int) -> Seq<u8> {
    wire::i32_le(length as i32) + wire::i32_le(MSG_TYPE_PADDING)
}

/// Where a broadcast buffer lies in a byte region.
#[derive(Debug, Clone, Copy, PartialEq, Eq, Structural)]
pub struct BroadcastLayout {
    /// Start of the buffer in the region.
    pub offset: usize,
    /// Data capacity in bytes (a power of two).
    pub capacity: usize,
    /// `capacity - 1`.
    pub mask: usize,
}

impl BroadcastLayout {
    /// The fields fit together.
    pub open spec fn wf(&self) -> bool {
        &&& position::valid_capacity(self.capacity as int)
        &&& self.mask == self.capacity - 1
        &&& self.offset + self.capacity + TRAILER_LENGTH <= usize::MAX
    }

    /// The buffer lies within the region.
    pub open spec fn fits(&self, s: Seq<u8>) -> bool {
        &&& self.wf()
        &&& self.offset + self.capacity + TRAILER_LENGTH <= s.len()
    }

    /// A message can be transmitted and read back: it fits into the buffer, is of
    /// no reserved type, and the lengths to be stored fit into their fields.
    pub open spec fn transmits(&self, s: Seq<u8>, message: (i32, Seq<u8>)) -> bool {
        &&& message.0 != MSG_TYPE_PADDING
        &&& message.1.len() + RECORD_HEADER_LENGTH <= self.capacity
        &&& message.1.len() + RECORD_HEADER_LENGTH <= i32::MAX
        &&& self.padding_for(self.tail(s) as int, message.1.len() as int) <= i32::MAX
    }

    /// The region after the first `k` of a sequence of messages were transmitted.
    pub open spec fn transmitted_all(
        &self,
        s: Seq<u8>,
        messages: Seq<(i32, Seq<u8>)>,
        k: int,
    ) -> Seq<u8>
        decreases k,
    {
        if k <= 0 {
            s
        } else {
            let (msg_type, payload) = messages[k - 1];
            self.transmitted(self.transmitted_all(s, messages, k - 1), msg_type, payload)
        }
    }

    /// Position behind the last record.
    pub open spec fn tail(&self, s: Seq<u8>) -> i64 {
        wire::i64_at(s, self.offset + self.capacity + TAIL_COUNTER_OFFSET)
    }

    /// Position of the last record.
    pub open spec fn latest(&self, s: Seq<u8>) -> i64 {
        wire::i64_at(s, self.offset + self.capacity + LATEST_COUNTER_OFFSET)
    }

    /// Index of a position.
    pub open spec fn index(&self, p: int) -> int {
        position::index_of(p, self.capacity as int)
    }

    /// Length of the record at a position.
    pub open spec fn length_at(&self, s: Seq<u8>, p: int) -> i32 {
        wire::i32_at(s, self.offset + self.index(p))
    }

    /// Type of the record at a position.
    pub open spec fn type_at(&self, s: Seq<u8>, p: int) -> i32 {
        wire::i32_at(s, self.offset + self.index(p) + 4)
    }

    /// Length with alignment of the record at a position.
    pub open spec fn step_at(&self, s: Seq<u8>, p: int) -> int {
        position::aligned(self.length_at(s, p) as int)
    }

    /// A record stands at the position, within the ring and within the `n` bytes
    /// up to the tail.
    pub open spec fn readable(&self, s: Seq<u8>, p: int, n: int) -> bool {
        &&& self.length_at(s, p) >= if self.type_at(s, p) == MSG_TYPE_PADDING {
            1
        } else {
            RECORD_HEADER_LENGTH as int
        }
        &&& self.index(p) + self.step_at(s, p) <= self.capacity
        &&& self.step_at(s, p) <= n
    }

    /// Payload of the record at a position.
    pub open spec fn payload_at(&self, s: Seq<u8>, p: int) -> Seq<u8> {
        let start = self.offset + self.index(p);
        s.subrange(start + RECORD_HEADER_LENGTH, start + self.length_at(s, p))
    }

    /// Messages from a position on, up to `n` bytes further or to the first
    /// place where no record stands. Padding is skipped.
    pub open spec fn messages(&self, s: Seq<u8>, p: int, n: int) -> Seq<(i32, Seq<u8>)>
        decreases n,
    {
        if n <= 0 || !self.readable(s, p, n) {
            Seq::empty()
        } else {
            let step = self.step_at(s, p);
            let rest = self.messages(s, p + step, n - step);
            if self.type_at(s, p) == MSG_TYPE_PADDING {
                rest
            } else {
                seq![(self.type_at(s, p), self.payload_at(s, p))] + rest
            }
        }
    }

    /// How many bytes those messages and the padding between them take.
    pub open spec fn extent(&self, s: Seq<u8>, p: int, n: int) -> int
        decreases n,
    {
        if n <= 0 || !self.readable(s, p, n) {
            0
        } else {
            let step = self.step_at(s, p);
            step + self.extent(s, p + step, n - step)
        }
    }

    /// `s` and `t` hold the same bytes for the `n` positions from `p` on.
    pub open spec fn agree(&self, s: Seq<u8>, t: Seq<u8>, p: int, n: int) -> bool {
        forall|q: int|
            p <= q < p + n ==> s[self.offset + #[trigger] self.index(q)] == t[self.offset
                + self.index(q)]
    }

    /// Bytes of padding that a message needs in front of it, with the tail at
    /// the given position.
    pub open spec fn padding_for(&self, tail: int, payload_length: int) -> int {
        let room = self.capacity - self.index(tail);
        if position::aligned(payload_length + RECORD_HEADER_LENGTH) > room {
            room
        } else {
            0
        }
    }

    /// Position of a message that is transmitted with the tail at the given
    /// position.
    pub open spec fn place_of(&self, tail: i64, payload_length: int) -> i64 {
        tail.wrapping_add(self.padding_for(tail as int, payload_length) as i64)
    }

    /// The region after a message has been transmitted.
    pub open spec fn transmitted(&self, s: Seq<u8>, msg_type: i32, payload: Seq<u8>) -> Seq<u8> {
        let tail = self.tail(s);
        let padding = self.padding_for(tail as int, payload.len() as int);
        let place = self.place_of(tail, payload.len() as int);
        let padded = if padding > 0 {
            wire::splice(s, self.offset + self.index(tail as int), padding_header(padding))
        } else {
            s
        };
        let index = if padding > 0 {
            0
        } else {
            self.index(tail as int)
        };
        let recorded = wire::splice(padded, self.offset + index, record_bytes(msg_type, payload));
        let noted = wire::splice(
            recorded,
            self.offset + self.capacity + LATEST_COUNTER_OFFSET,
            wire::i64_le(place),
        );
        wire::splice(
            noted,
            self.offset + self.capacity + TAIL_COUNTER_OFFSET,
            wire::i64_le(
                place.wrapping_add(
                    position::aligned(payload.len() + RECORD_HEADER_LENGTH) as i64,
                ),
            ),
        )
    }

    /// Position of the last record.
    pub fn latest_counter(&self, buffer: &[u8]) -> (r: i64)
        requires
            self.fits(buffer@),
        ensures
            r == self.latest(buffer@),
    {
        wire::read_i64(buffer, self.offset + self.capacity + LATEST_COUNTER_OFFSET)
    }

    /// Position behind the last record.
    pub fn tail_counter(&self, buffer: &[u8]) -> (r: i64)
        requires
            self.fits(buffer@),
        ensures
            r == self.tail(buffer@),
    {
        wire::read_i64(buffer, self.offset + self.capacity + TAIL_COUNTER_OFFSET)
    }

    /// Bytes from `p` on that lie in one stretch of the ring have successive
    /// indices.
    proof fn lemma_stretch(&self, p: int, n: int)
        requires
            self.wf(),
            0 <= n <= self.capacity - self.index(p),
        ensures
            forall|x: int| 0 <= x < n ==> #[trigger] self.index(p + x) == self.index(p) + x,
    {
        assert forall|x: int| 0 <= x < n implies #[trigger] self.index(p + x) == self.index(p)
            + x by {
            position::lemma_index_step(p, x, self.capacity as int);
        }
    }

    proof fn lemma_agree_header(&self, s: Seq<u8>, t: Seq<u8>, p: int, n: int)
        requires
            self.wf(),
            self.agree(s, t, p, n),
            n >= 8,
            self.index(p) + 8 <= self.capacity,
        ensures
            self.type_at(s, p) == self.type_at(t, p),
            self.length_at(s, p) == self.length_at(t, p),
    {
        self.lemma_stretch(p, 8);
        let o = self.offset + self.index(p);
        assert forall|i: int| o <= i < o + 8 implies s[i] == #[trigger] t[i] by {
            assert(self.index(p + (i - o)) == self.index(p) + (i - o));
        }
        wire::lemma_u32_at_same(s, t, o);
        wire::lemma_u32_at_same(s, t, o + 4);
    }

    proof fn lemma_agree_payload(&self, s: Seq<u8>, t: Seq<u8>, p: int, n: int)
        requires
            self.fits(s),
            self.fits(t),
            self.agree(s, t, p, n),
            n >= 8,
            self.index(p) + 8 <= self.capacity,
            self.readable(s, p, n),
            self.type_at(s, p) != MSG_TYPE_PADDING,
        ensures
            self.payload_at(s, p) == self.payload_at(t, p),
    {
        self.lemma_agree_header(s, t, p, n);
        let len = self.length_at(s, p) as int;
        position::lemma_aligned(len);
        self.lemma_stretch(p, len);
        let o = self.offset + self.index(p);
        assert forall|i: int| 0 <= i < len - 8 implies self.payload_at(s, p)[i]
            == self.payload_at(t, p)[i] by {
            assert(self.index(p + (8 + i)) == self.index(p) + (8 + i));
        }
        assert(self.payload_at(s, p) =~= self.payload_at(t, p));
    }
}

/// The writing side, owned by the conductor.
///
/// Old messages are overwritten when the buffer wraps.
#[derive(Debug, Clone, Copy, PartialEq, Eq, Structural)]
pub struct BroadcastTransmitter {
    pub layout: BroadcastLayout,
    /// `capacity - RECORD_HEADER_LENGTH`.
    pub max_record_length: usize,
}

impl BroadcastTransmitter {
    /// The fields fit together.
    pub open spec fn wf(&self) -> bool {
        &&& self.layout.wf()
        &&& self.max_record_length == self.layout.capacity - RECORD_HEADER_LENGTH
    }

    /// The buffer lies within the region.
    pub open spec fn fits(&self, s: Seq<u8>) -> bool {
        &&& self.wf()
        &&& self.layout.fits(s)
    }

    /// Places a broadcast buffer of the given capacity at `offset` in a region.
    pub fn new(buffer: &[u8], offset: usize, capacity: usize) -> (r: Result<Self, BroadcastError>)
        ensures
            match r {
                Ok(tx) => tx.fits(buffer@) && tx.layout.offset == offset && tx.layout.capacity
                    == capacity,
                Err(e) => e == BroadcastError::InvalidCapacity,
            },
            r is Ok <==> position::valid_capacity(capacity as int) && offset + capacity
                + TRAILER_LENGTH <= buffer@.len(),
    {
        if capacity < RECORD_ALIGNMENT || !capacity.is_power_of_two() {
            return Err(BroadcastError::InvalidCapacity);
        }
        if buffer.len() < offset || buffer.len() - offset < capacity || buffer.len() - offset
            - capacity < TRAILER_LENGTH {
            return Err(BroadcastError::InvalidCapacity);
        }
        Ok(
            BroadcastTransmitter {
                layout: BroadcastLayout { offset, capacity, mask: capacity - 1 },
                max_record_length: capacity - RECORD_HEADER_LENGTH,
            },
        )
    }

    /// Data capacity in bytes.
    pub fn capacity(&self) -> (r: usize)
        ensures
            r == self.layout.capacity,
    {
        self.layout.capacity
    }

    /// Largest payload of a single message.
    pub fn max_message_length(&self) -> (r: usize)
        requires
            self.wf(),
        ensures
            r == self.layout.capacity - RECORD_HEADER_LENGTH,
    {
        self.max_record_length
    }

    /// Writes a message behind the last one, over the oldest ones if need be.
    pub fn transmit(&self, buffer: &mut [u8], msg_type: i32, payload: &[u8]) -> (r: Result<
        (),
        BroadcastError,
    >)
        requires
            self.fits(old(buffer)@),
        ensures
            payload@.len() + RECORD_HEADER_LENGTH > self.layout.capacity ==> r == Err::<
                (),
                BroadcastError,
            >(BroadcastError::MessageTooLarge) && final(buffer)@ == old(buffer)@,
            payload@.len() + RECORD_HEADER_LENGTH <= self.layout.capacity ==> r == Ok::<
                (),
                BroadcastError,
            >(()) && final(buffer)@ == self.layout.transmitted(old(buffer)@, msg_type, payload@),
    {
        if payload.len() > self.max_record_length {
            return Err(BroadcastError::MessageTooLarge);
        }
        let offset: usize = self.layout.offset;
        let capacity: usize = self.layout.capacity;
        let record_length: usize = payload.len() + RECORD_HEADER_LENGTH;
        proof {
            position::lemma_valid_capacity(capacity as int);
            position::lemma_aligned(record_length as int);
        }
        let aligned_length: usize = align_record(record_length);
        let tail: i64 = self.layout.tail_counter(buffer);
        let tail_index: usize = masked_index(tail, self.layout.mask);
        let contiguous: usize = capacity - tail_index;
        let mut index: usize = tail_index;
        let mut place: i64 = tail;
        let ghost s = buffer@;
        if aligned_length > contiguous {
            #[verifier::truncate]
            let pad: i32 = contiguous as i32;
            wire::write_i32(buffer, offset + tail_index, pad);
            wire::write_i32(buffer, offset + tail_index + 4, MSG_TYPE_PADDING);
            #[verifier::truncate]
            let advance: i64 = contiguous as i64;
            place = tail.wrapping_add(advance);
            index = 0;
            assert(buffer@ =~= wire::splice(
                s,
                offset + tail_index,
                padding_header(contiguous as int),
            ));
        } else {
            assert(tail.wrapping_add(0) == tail);
        }
        self.write_record(buffer, index, msg_type, payload, record_length, aligned_length);
        #[verifier::truncate]
        let advance: i64 = aligned_length as i64;
        wire::write_i64(buffer, offset + capacity + LATEST_COUNTER_OFFSET, place);
        wire::write_i64(
            buffer,
            offset + capacity + TAIL_COUNTER_OFFSET,
            place.wrapping_add(advance),
        );
        Ok(())
    }

    /// Writes the bytes of a record at an index.
    fn write_record(
        &self,
        buffer: &mut [u8],
        index: usize,
        msg_type: i32,
        payload: &[u8],
        record_length: usize,
        aligned_length: usize,
    )
        requires
            self.fits(old(buffer)@),
            record_length == payload@.len() + RECORD_HEADER_LENGTH,
            aligned_length == position::aligned(record_length as int),
            index + aligned_length <= self.layout.capacity,
        ensures
            final(buffer)@ == wire::splice(
                old(buffer)@,
                self.layout.offset + index,
                record_bytes(msg_type, payload@),
            ),
    {
        proof {
            position::lemma_aligned(record_length as int);
        }
        let start: usize = self.layout.offset + index;
        #[verifier::truncate]
        let length: i32 = record_length as i32;
        wire::write_zeros(buffer, start + record_length, aligned_length - record_length);
        wire::write_bytes(buffer, start + RECORD_HEADER_LENGTH, payload);
        wire::write_i32(buffer, start, length);
        wire::write_i32(buffer, start + 4, msg_type);
        assert(buffer@ =~= wire::splice(
            old(buffer)@,
            start as int,
            record_bytes(msg_type, payload@),
        ));
    }

    /// Position behind the last record, where a new receiver starts.
    pub fn tail_counter(&self, buffer: &[u8]) -> (r: i64)
        requires
            self.fits(buffer@),
        ensures
            r == self.layout.tail(buffer@),
    {
        self.layout.tail_counter(buffer)
    }
}

/// A reading side, one for each client.
#[derive(Debug, Clone, Copy, PartialEq, Eq, Structural)]
pub struct BroadcastReceiver {
    pub layout: BroadcastLayout,
    /// Position of the next record to read.
    pub cursor: i64,
    /// How often this receiver was lapped.
    pub lapped_count: u64,
}

impl BroadcastReceiver {
    /// The buffer lies within the region.
    pub open spec fn fits(&self, s: Seq<u8>) -> bool {
        self.layout.fits(s)
    }

    /// The transmitter has overwritten messages that were not read yet.
    pub open spec fn lapped(&self, s: Seq<u8>) -> bool {
        self.layout.tail(s).wrapping_sub(self.cursor) > self.layout.capacity
    }

    /// Where reading starts: at the cursor or, for a lapped receiver, at the
    /// last record.
    pub open spec fn start(&self, s: Seq<u8>) -> i64 {
        if self.lapped(s) {
            self.layout.latest(s)
        } else {
            self.cursor
        }
    }

    /// Bytes between where reading starts and the tail, none unless both are
    /// record boundaries at most one ring apart.
    pub open spec fn behind(&self, s: Seq<u8>) -> int {
        if self.start(s) as int % 32 == 0 && self.layout.tail(s) as int % 32 == 0
            && self.layout.tail(s).wrapping_sub(self.start(s)) <= self.layout.capacity {
            self.layout.tail(s).wrapping_sub(self.start(s)) as int
        } else {
            0
        }
    }

    /// Records stand all the way from the cursor to the tail.
    pub open spec fn in_step(&self, s: Seq<u8>) -> bool {
        let n = self.layout.tail(s).wrapping_sub(self.cursor) as int;
        &&& self.fits(s)
        &&& self.cursor as int % 32 == 0
        &&& self.layout.tail(s) as int % 32 == 0
        &&& 0 <= n <= self.layout.capacity
        &&& self.layout.extent(s, self.cursor as int, n) == n
    }

    /// A message can be transmitted and read back without lapping this receiver.
    pub open spec fn can_follow(&self, s: Seq<u8>, message: (i32, Seq<u8>)) -> bool {
        let tail = self.layout.tail(s);
        &&& self.layout.transmits(s, message)
        &&& tail.wrapping_sub(self.cursor) + advance_for(
            self.layout,
            tail as int,
            message.1.len() as int,
        ) <= self.layout.capacity
    }

    /// The messages that this receiver reads next.
    pub open spec fn unread(&self, s: Seq<u8>) -> Seq<(i32, Seq<u8>)> {
        self.layout.messages(s, self.start(s) as int, self.behind(s))
    }

    /// Makes a receiver for a broadcast buffer at `offset` in a region. With the
    /// transmitter's tail counter as `cursor` it sees what comes from then on.
    pub fn new(offset: usize, capacity: usize, cursor: i64) -> (r: Self)
        requires
            position::valid_capacity(capacity as int),
            offset + capacity + TRAILER_LENGTH <= usize::MAX,
        ensures
            r.layout.wf(),
            r.layout.offset == offset,
            r.layout.capacity == capacity,
            r.cursor == cursor,
            r.lapped_count == 0,
    {
        BroadcastReceiver {
            layout: BroadcastLayout { offset, capacity, mask: capacity - 1 },
            cursor,
            lapped_count: 0,
        }
    }

    /// Reads every message up to the tail and appends them to `messages`. Returns
    /// their number.
    ///
    /// A lapped receiver counts the lap and skips ahead to the last message.
    /// Reading stops where no record stands.
    #[verifier::rlimit(40)]
    pub fn receive(&mut self, buffer: &[u8], messages: &mut Vec<RingMessage>) -> (r: i32)
        requires
            old(self).fits(buffer@),
            old(self).layout.capacity as int / 32 <= i32::MAX,
            old(self).lapped_count < u64::MAX,
        ensures
            r == old(self).unread(buffer@).len(),
            ring_buffer::message_views(final(messages)@) == ring_buffer::message_views(
                old(messages)@,
            ) + old(self).unread(buffer@),
            final(self).layout == old(self).layout,
            final(self).lapped_count == old(self).lapped_count + if old(self).lapped(buffer@) {
                1int
            } else {
                0int
            },
            final(self).cursor == old(self).start(buffer@).wrapping_add(
                old(self).layout.extent(
                    buffer@,
                    old(self).start(buffer@) as int,
                    old(self).behind(buffer@),
                ) as i64,
            ),
    {
        let ghost prior = ring_buffer::message_views(messages@);
        let layout = self.layout;
        let ghost s = buffer@;
        let tail: i64 = layout.tail_counter(buffer);
        let behind: i64 = tail.wrapping_sub(self.cursor);
        if behind as i128 > layout.capacity as i128 {
            self.lapped_count = self.lapped_count + 1;
            self.cursor = layout.latest_counter(buffer);
        }
        let start: i64 = self.cursor;
        proof {
            position::lemma_valid_capacity(layout.capacity as int);
            assert(prior + Seq::<(i32, Seq<u8>)>::empty() =~= prior);
            assert(start.wrapping_add(0) == start);
        }
        let length: i64 = tail.wrapping_sub(start);
        if !position::on_boundary(start) || !position::on_boundary(tail) || length as i128
            > layout.capacity as i128 {
            return 0;
        }
        let mut done: i64 = 0;
        let mut messages_read: i32 = 0;
        let mut blocked: bool = length <= 0;
        while done < length && !blocked
            invariant
                layout.fits(s),
                s == buffer@,
                layout.capacity % 32 == 0,
                layout.capacity as int / 32 <= i32::MAX,
                length <= layout.capacity,
                length > 0 ==> 0 <= done <= length,
                length <= 0 ==> done == 0 && blocked && messages@ == old(messages)@ && messages_read
                    == 0,
                start as int % 32 == 0,
                done as int % 32 == 0,
                length as int % 32 == 0,
                blocked && length > 0 ==> !layout.readable(s, start + done, length - done),
                ring_buffer::message_views(messages@) + layout.messages(
                    s,
                    start + done,
                    length - done,
                ) == prior + layout.messages(s, start as int, length as int),
                done + layout.extent(s, start + done, length - done) == layout.extent(
                    s,
                    start as int,
                    length as int,
                ),
                0 <= messages_read <= done as int / 32,
                messages_read == messages@.len() - prior.len(),
            decreases
                    length - done,
                    (if blocked {
                        0int
                    } else {
                        1int
                    }),
        {
            let ghost p = start + done;
            let ghost n = length - done;
            let index: usize = masked_index(start.wrapping_add(done), layout.mask);
            proof {
                position::lemma_index_wraps(start, done as int, layout.capacity as int);
                position::lemma_index_aligned(p, layout.capacity as int);
            }
            let at: usize = layout.offset + index;
            let record_length: i32 = wire::read_i32(buffer, at);
            let msg_type: i32 = wire::read_i32(buffer, at + 4);
            let least: i32 = if msg_type == MSG_TYPE_PADDING {
                1
            } else {
                8
            };
            if record_length < least || record_length as i128 > (layout.capacity - index) as i128
                || record_length as i64 > length - done {
                proof {
                    position::lemma_aligned(record_length as int);
                }
                blocked = true;
            } else {
                let step: usize = align_record(record_length as usize);
                let ghost before = messages@;
                if msg_type != MSG_TYPE_PADDING {
                    let payload = wire::read_bytes(
                        buffer,
                        at + RECORD_HEADER_LENGTH,
                        record_length as usize - RECORD_HEADER_LENGTH,
                    );
                    messages.push(RingMessage { msg_type, payload });
                    messages_read += 1;
                    proof {
                        assert(ring_buffer::message_views(messages@) =~= ring_buffer::message_views(
                            before,
                        ).push((msg_type, payload@)));
                        assert(ring_buffer::message_views(before) + layout.messages(s, p, n)
                            =~= ring_buffer::message_views(messages@) + layout.messages(
                            s,
                            p + step,
                            n - step,
                        ));
                    }
                }
                done = done + step as i64;
            }
        }
        self.cursor = start.wrapping_add(done);
        messages_read
    }

    /// How often this receiver was lapped.
    pub fn lapped_count(&self) -> (r: u64)
        ensures
            r == self.lapped_count,
    {
        self.lapped_count
    }
}

/// Where `n` bytes of records stand in `s`, a region `t` that has the same bytes
/// there begins with the same messages.
proof fn lemma_messages_append(
    layout: BroadcastLayout,
    s: Seq<u8>,
    t: Seq<u8>,
    p: int,
    n: int,
    more: int,
)
    requires
        layout.fits(s),
        layout.fits(t),
        p % 32 == 0,
        n % 32 == 0,
        0 <= n,
        0 <= more,
        layout.agree(s, t, p, n),
        layout.extent(s, p, n) == n,
    ensures
        layout.messages(t, p, n + more) == layout.messages(s, p, n) + layout.messages(
            t,
            p + n,
            more,
        ),
        layout.extent(t, p, n + more) == n + layout.extent(t, p + n, more),
    decreases n,
{
    if n == 0 {
        assert(layout.messages(t, p, n + more) =~= layout.messages(s, p, n) + layout.messages(
            t,
            p + n,
            more,
        ));
    } else {
        let step = layout.step_at(s, p);
        position::lemma_valid_capacity(layout.capacity as int);
        position::lemma_index_aligned(p, layout.capacity as int);
        layout.lemma_agree_header(s, t, p, n);
        position::lemma_aligned(layout.length_at(s, p) as int);
        assert(layout.agree(s, t, p + step, n - step));
        lemma_messages_append(layout, s, t, p + step, n - step, more);
        assert(layout.readable(t, p, n + more));
        if layout.type_at(s, p) != MSG_TYPE_PADDING {
            layout.lemma_agree_payload(s, t, p, n);
        }
        assert(layout.messages(t, p, n + more) =~= layout.messages(s, p, n) + layout.messages(
            t,
            p + n,
            more,
        ));
    }
}

/// Where the bytes of a record stand at a position, it reads back as its type
/// and payload.
proof fn lemma_record_reads_back(
    layout: BroadcastLayout,
    t: Seq<u8>,
    p: int,
    msg_type: i32,
    payload: Seq<u8>,
)
    requires
        layout.fits(t),
        payload.len() + RECORD_HEADER_LENGTH <= i32::MAX,
        layout.index(p) + payload.len() + RECORD_HEADER_LENGTH <= layout.capacity,
        forall|i: int|
            0 <= i < payload.len() + RECORD_HEADER_LENGTH ==> t[layout.offset + layout.index(p) + i]
                == #[trigger] record_bytes(msg_type, payload)[i],
    ensures
        layout.type_at(t, p) == msg_type,
        layout.length_at(t, p) == payload.len() + RECORD_HEADER_LENGTH,
        layout.payload_at(t, p) == payload,
{
    let o = layout.offset + layout.index(p);
    let length = payload.len() + RECORD_HEADER_LENGTH;
    let record = record_bytes(msg_type, payload);
    assert forall|i: int| 0 <= i < 4 implies t[o + i] == #[trigger] wire::i32_le(length as i32)[i] by {
        assert(t[o + i] == record[i]);
    }
    wire::lemma_i32_at_le(t, o, length as i32);
    assert forall|i: int| 0 <= i < 4 implies t[o + 4 + i] == #[trigger] wire::i32_le(msg_type)[i] by {
        assert(t[o + (4 + i)] == record[4 + i]);
    }
    wire::lemma_i32_at_le(t, o + 4, msg_type);
    assert forall|i: int| 0 <= i < payload.len() implies layout.payload_at(t, p)[i]
        == payload[i] by {
        assert(t[o + (8 + i)] == record[8 + i]);
    }
    assert(layout.payload_at(t, p) =~= payload);
}

/// Where the bytes of a padding header stand at a position, it reads back as
/// padding of its length.
proof fn lemma_padding_reads_back(layout: BroadcastLayout, t: Seq<u8>, p: int, length: int)
    requires
        layout.fits(t),
        0 <= length <= i32::MAX,
        forall|i: int|
            0 <= i < 8 ==> t[layout.offset + layout.index(p) + i] == #[trigger] padding_header(
                length,
            )[i],
    ensures
        layout.type_at(t, p) == MSG_TYPE_PADDING,
        layout.length_at(t, p) == length,
{
    let o = layout.offset + layout.index(p);
    assert forall|i: int| 0 <= i < 4 implies t[o + i] == #[trigger] wire::i32_le(length as i32)[i] by {
        assert(t[o + i] == padding_header(length)[i]);
    }
    wire::lemma_i32_at_le(t, o, length as i32);
    assert forall|i: int| 0 <= i < 4 implies t[o + 4 + i] == #[trigger] wire::i32_le(
        MSG_TYPE_PADDING,
    )[i] by {
        assert(t[o + (4 + i)] == padding_header(length)[4 + i]);
    }
    wire::lemma_i32_at_le(t, o + 4, MSG_TYPE_PADDING);
}

/// Bytes that a message takes, with the padding in front of it.
pub open spec fn advance_for(layout: BroadcastLayout, tail: int, payload_length: int) -> int {
    layout.padding_for(tail, payload_length) + position::aligned(
        payload_length + RECORD_HEADER_LENGTH,
    )
}

/// Transmitting moves the tail behind the message and notes where it stands.
pub proof fn law_transmit_moves_counters(
    layout: BroadcastLayout,
    s: Seq<u8>,
    msg_type: i32,
    payload: Seq<u8>,
)
    requires
        layout.fits(s),
        payload.len() + RECORD_HEADER_LENGTH <= layout.capacity,
        advance_for(layout, layout.tail(s) as int, payload.len() as int) <= i64::MAX,
    ensures
        layout.tail(layout.transmitted(s, msg_type, payload)) == layout.tail(s).wrapping_add(
            advance_for(layout, layout.tail(s) as int, payload.len() as int) as i64,
        ),
        layout.latest(layout.transmitted(s, msg_type, payload)) == layout.place_of(
            layout.tail(s),
            payload.len() as int,
        ),
        layout.transmitted(s, msg_type, payload).len() == s.len(),
{
    let t = layout.transmitted(s, msg_type, payload);
    let tail = layout.tail(s);
    let place = layout.place_of(tail, payload.len() as int);
    let need = position::aligned(payload.len() + RECORD_HEADER_LENGTH);
    let o = layout.offset + layout.capacity + TAIL_COUNTER_OFFSET;
    let l = layout.offset + layout.capacity + LATEST_COUNTER_OFFSET;
    position::lemma_valid_capacity(layout.capacity as int);
    position::lemma_aligned(payload.len() + RECORD_HEADER_LENGTH);
    let new_tail = place.wrapping_add(need as i64);
    assert forall|i: int| 0 <= i < 8 implies t[o + i] == #[trigger] wire::i64_le(new_tail)[i] by {}
    wire::lemma_i64_at_le(t, o, new_tail);
    assert forall|i: int| 0 <= i < 8 implies t[l + i] == #[trigger] wire::i64_le(place)[i] by {}
    wire::lemma_i64_at_le(t, l, place);
}

/// Transmitting touches no byte of the `n` positions up to the tail, as long as
/// they and the new message fit into the ring together.
proof fn lemma_transmitted_agrees(
    layout: BroadcastLayout,
    s: Seq<u8>,
    msg_type: i32,
    payload: Seq<u8>,
    p: int,
    n: int,
)
    requires
        layout.fits(s),
        layout.tail(s) as int % 32 == 0,
        payload.len() + RECORD_HEADER_LENGTH <= layout.capacity,
        0 <= n,
        n + advance_for(layout, layout.tail(s) as int, payload.len() as int) <= layout.capacity,
        layout.index(p + n) == layout.index(layout.tail(s) as int),
    ensures
        layout.agree(s, layout.transmitted(s, msg_type, payload), p, n),
{
    let t = layout.transmitted(s, msg_type, payload);
    let end = p + n;
    let capacity = layout.capacity as int;
    let need = position::aligned(payload.len() + RECORD_HEADER_LENGTH);
    let padding = layout.padding_for(layout.tail(s) as int, payload.len() as int);
    position::lemma_valid_capacity(capacity);
    position::lemma_aligned(payload.len() + RECORD_HEADER_LENGTH);
    position::lemma_index_aligned(layout.tail(s) as int, capacity);
    assert(record_bytes(msg_type, payload).len() == need);
    assert forall|q: int| p <= q < p + n implies s[layout.offset + #[trigger] layout.index(q)]
        == t[layout.offset + layout.index(q)] by {
        let k = layout.index(q);
        assert(0 <= k < capacity);
        if padding > 0 {
            if k >= layout.index(end) {
                position::lemma_index_step(end, k - layout.index(end), capacity);
                position::lemma_index_distinct(q, end + (k - layout.index(end)), capacity);
            } else if k < need {
                position::lemma_index_step(end, padding, capacity);
                position::lemma_index_step(end + padding, k, capacity);
                position::lemma_index_distinct(q, end + padding + k, capacity);
            }
        } else if layout.index(end) <= k < layout.index(end) + need {
            position::lemma_index_step(end, k - layout.index(end), capacity);
            position::lemma_index_distinct(q, end + (k - layout.index(end)), capacity);
        }
    }
}

/// At the place of a transmitted message stands that message.
proof fn lemma_latest_message(
    layout: BroadcastLayout,
    s: Seq<u8>,
    msg_type: i32,
    payload: Seq<u8>,
    place: int,
)
    requires
        layout.fits(s),
        layout.tail(s) as int % 32 == 0,
        layout.transmits(s, (msg_type, payload)),
        layout.index(place) == if layout.padding_for(layout.tail(s) as int, payload.len() as int)
            > 0 {
            0
        } else {
            layout.index(layout.tail(s) as int)
        },
    ensures
        ({
            let t = layout.transmitted(s, msg_type, payload);
            let need = position::aligned(payload.len() + RECORD_HEADER_LENGTH);
            &&& layout.messages(t, place, need) == seq![(msg_type, payload)]
            &&& layout.extent(t, place, need) == need
        }),
{
    let t = layout.transmitted(s, msg_type, payload);
    let need = position::aligned(payload.len() + RECORD_HEADER_LENGTH);
    position::lemma_valid_capacity(layout.capacity as int);
    position::lemma_aligned(payload.len() + RECORD_HEADER_LENGTH);
    position::lemma_index_aligned(layout.tail(s) as int, layout.capacity as int);
    assert(record_bytes(msg_type, payload).len() == need);
    let o = layout.offset + layout.index(place);
    assert forall|i: int| 0 <= i < payload.len() + RECORD_HEADER_LENGTH implies t[o + i]
        == #[trigger] record_bytes(msg_type, payload)[i] by {}
    lemma_record_reads_back(layout, t, place, msg_type, payload);
    assert(layout.readable(t, place, need));
    assert(layout.messages(t, place + need, 0) =~= Seq::<(i32, Seq<u8>)>::empty());
    assert(layout.messages(t, place, need) =~= seq![(msg_type, payload)]);
    assert(layout.extent(t, place + need, 0) == 0);
    assert(layout.extent(t, place, need) == need);
}

/// Behind the old tail stands what was transmitted.
proof fn lemma_transmitted_message(
    layout: BroadcastLayout,
    s: Seq<u8>,
    msg_type: i32,
    payload: Seq<u8>,
    end: int,
)
    requires
        layout.fits(s),
        layout.tail(s) as int % 32 == 0,
        layout.transmits(s, (msg_type, payload)),
        advance_for(layout, layout.tail(s) as int, payload.len() as int) <= layout.capacity,
        layout.index(end) == layout.index(layout.tail(s) as int),
    ensures
        ({
            let t = layout.transmitted(s, msg_type, payload);
            let more = advance_for(layout, layout.tail(s) as int, payload.len() as int);
            &&& layout.messages(t, end, more) == seq![(msg_type, payload)]
            &&& layout.extent(t, end, more) == more
        }),
{
    let t = layout.transmitted(s, msg_type, payload);
    let capacity = layout.capacity as int;
    let need = position::aligned(payload.len() + RECORD_HEADER_LENGTH);
    let padding = layout.padding_for(layout.tail(s) as int, payload.len() as int);
    let more = padding + need;
    let place = end + padding;
    position::lemma_valid_capacity(capacity);
    position::lemma_aligned(payload.len() + RECORD_HEADER_LENGTH);
    position::lemma_index_aligned(layout.tail(s) as int, capacity);
    assert(record_bytes(msg_type, payload).len() == need);
    if padding > 0 {
        position::lemma_index_step(end, padding, capacity);
        assert(layout.index(place) == 0);
        let o = layout.offset + layout.index(end);
        assert(need <= layout.index(end));
        assert forall|i: int| 0 <= i < 8 implies t[o + i] == #[trigger] padding_header(padding)[i] by {}
        lemma_padding_reads_back(layout, t, end, padding);
        position::lemma_aligned(padding);
        assert(layout.step_at(t, end) == padding);
    }
    lemma_latest_message(layout, s, msg_type, payload, place);
    if padding > 0 {
        assert(layout.readable(t, end, more));
        assert(layout.messages(t, end, more) == layout.messages(t, place, need));
        assert(layout.extent(t, end, more) == padding + layout.extent(t, place, need));
    }
}

/// Where `t` keeps what a receiver has not read of `s` and holds one message more
/// behind it, that message comes last.
proof fn lemma_one_more(
    rx: BroadcastReceiver,
    s: Seq<u8>,
    t: Seq<u8>,
    more: int,
    message: (i32, Seq<u8>),
)
    requires
        rx.in_step(s),
        rx.fits(t),
        rx.layout.capacity <= i64::MAX,
        0 <= more,
        more % 32 == 0,
        rx.layout.tail(s).wrapping_sub(rx.cursor) + more <= rx.layout.capacity,
        rx.layout.tail(t) == rx.layout.tail(s).wrapping_add(more as i64),
        rx.layout.agree(s, t, rx.cursor as int, rx.layout.tail(s).wrapping_sub(rx.cursor) as int),
        rx.layout.messages(t, rx.cursor + rx.layout.tail(s).wrapping_sub(rx.cursor), more)
            == seq![message],
        rx.layout.extent(t, rx.cursor + rx.layout.tail(s).wrapping_sub(rx.cursor), more) == more,
    ensures
        rx.in_step(t),
        rx.unread(t) == rx.unread(s).push(message),
{
    let n = rx.layout.tail(s).wrapping_sub(rx.cursor) as int;
    lemma_moved_tail(rx.cursor, rx.layout.tail(s), more);
    lemma_messages_append(rx.layout, s, t, rx.cursor as int, n, more);
    assert(rx.unread(s) + seq![message] =~= rx.unread(s).push(message));
}

/// A receiver that has room for one message more sees, after it was
/// transmitted, what it would have seen before and then that message.
pub proof fn law_transmit_appends(
    rx: BroadcastReceiver,
    s: Seq<u8>,
    msg_type: i32,
    payload: Seq<u8>,
)
    requires
        rx.in_step(s),
        rx.layout.capacity <= i64::MAX,
        rx.can_follow(s, (msg_type, payload)),
    ensures
        rx.in_step(rx.layout.transmitted(s, msg_type, payload)),
        !rx.lapped(rx.layout.transmitted(s, msg_type, payload)),
        rx.unread(rx.layout.transmitted(s, msg_type, payload)) == rx.unread(s).push(
            (msg_type, payload),
        ),
{
    let layout = rx.layout;
    let t = layout.transmitted(s, msg_type, payload);
    let tail = layout.tail(s);
    let n = tail.wrapping_sub(rx.cursor) as int;
    let more = advance_for(layout, tail as int, payload.len() as int);
    let p = rx.cursor as int;
    assert(layout.index(p + n) == layout.index(tail as int)) by {
        position::lemma_index_wraps(rx.cursor, n, layout.capacity as int);
        assert(rx.cursor.wrapping_add(n as i64) == tail);
    }
    assert(0 <= more && more % 32 == 0) by {
        position::lemma_valid_capacity(layout.capacity as int);
        position::lemma_aligned(payload.len() + RECORD_HEADER_LENGTH);
        position::lemma_index_aligned(tail as int, layout.capacity as int);
    }
    law_transmit_moves_counters(layout, s, msg_type, payload);
    lemma_transmitted_agrees(layout, s, msg_type, payload, p, n);
    lemma_transmitted_message(layout, s, msg_type, payload, p + n);
    lemma_one_more(rx, s, t, more, (msg_type, payload));
}

proof fn lemma_moved_tail(cursor: i64, tail: i64, more: int)
    requires
        0 <= tail.wrapping_sub(cursor),
        0 <= more,
        tail.wrapping_sub(cursor) + more <= i64::MAX,
        more % 32 == 0,
        tail as int % 32 == 0,
        cursor as int % 32 == 0,
    ensures
        tail.wrapping_add(more as i64).wrapping_sub(cursor) == tail.wrapping_sub(cursor) + more,
        tail.wrapping_add(more as i64) as int % 32 == 0,
        tail.wrapping_sub(cursor) as int % 32 == 0,
{
    position::lemma_moved_position(cursor, tail, more);
}

/// A receiver sees exactly the messages that were transmitted since it was made
/// or read last, in order, as long as it is not lapped.
#[verifier::rlimit(40)]
#[verifier::spinoff_prover]
pub proof fn law_transmits_wait_in_order(
    rx: BroadcastReceiver,
    s: Seq<u8>,
    messages: Seq<(i32, Seq<u8>)>,
    k: int,
)
    requires
        rx.in_step(s),
        rx.layout.capacity <= i64::MAX,
        0 <= k <= messages.len(),
        forall|i: int|
            0 <= i < k ==> rx.can_follow(
                rx.layout.transmitted_all(s, messages, i),
                #[trigger] messages[i],
            ),
    ensures
        rx.in_step(rx.layout.transmitted_all(s, messages, k)),
        !rx.lapped(rx.layout.transmitted_all(s, messages, k)),
        rx.unread(rx.layout.transmitted_all(s, messages, k)) == rx.unread(s)
            + messages.subrange(0, k),
    decreases k,
{
    if k == 0 {
        assert(rx.unread(s) + messages.subrange(0, 0) =~= rx.unread(s));
    } else {
        law_transmits_wait_in_order(rx, s, messages, k - 1);
        let before = rx.layout.transmitted_all(s, messages, k - 1);
        let message = messages[k - 1];
        assert(rx.can_follow(before, message));
        law_transmit_appends(rx, before, message.0, message.1);
        ring_buffer::lemma_one_more_of(rx.unread(s), messages, k);
    }
}

/// A position moved by multiples of 32 stays on a boundary, and the way between
/// is the last step.
#[verifier::spinoff_prover]
proof fn lemma_two_steps(tail: i64, padding: int, need: int)
    requires
        tail as int % 32 == 0,
        padding % 32 == 0,
        need % 32 == 0,
        0 <= padding,
        0 < need,
        padding + need <= i64::MAX,
    ensures
        tail.wrapping_add(padding as i64) as int % 32 == 0,
        tail.wrapping_add((padding + need) as i64) as int % 32 == 0,
        tail.wrapping_add((padding + need) as i64).wrapping_sub(tail.wrapping_add(padding as i64))
            == need,
        tail.wrapping_add(padding as i64).wrapping_add(need as i64) == tail.wrapping_add(
            (padding + need) as i64,
        ),
{
    assert(tail.wrapping_sub(tail) == 0);
    position::lemma_moved_position(tail, tail, padding);
    position::lemma_moved_position(tail, tail, padding + need);
    let there = tail.wrapping_add(padding as i64);
    assert(there.wrapping_sub(there) == 0);
    position::lemma_moved_position(there, there, need);
}

/// A receiver that was lapped gets exactly the last message, and stands behind it
/// then.
#[verifier::rlimit(40)]
#[verifier::spinoff_prover]
pub proof fn law_lapped_receiver_gets_last_message(
    rx: BroadcastReceiver,
    s: Seq<u8>,
    msg_type: i32,
    payload: Seq<u8>,
)
    requires
        rx.fits(s),
        rx.layout.capacity <= i64::MAX,
        rx.layout.tail(s) as int % 32 == 0,
        rx.layout.transmits(s, (msg_type, payload)),
        advance_for(rx.layout, rx.layout.tail(s) as int, payload.len() as int) <= i64::MAX,
        rx.lapped(rx.layout.transmitted(s, msg_type, payload)),
    ensures
        ({
            let t = rx.layout.transmitted(s, msg_type, payload);
            &&& rx.unread(t) == seq![(msg_type, payload)]
            &&& rx.layout.extent(t, rx.start(t) as int, rx.behind(t)) == rx.behind(t)
            &&& rx.start(t).wrapping_add(rx.behind(t) as i64) == rx.layout.tail(t)
        }),
{
    let layout = rx.layout;
    let t = layout.transmitted(s, msg_type, payload);
    let tail = layout.tail(s);
    let need = position::aligned(payload.len() + RECORD_HEADER_LENGTH);
    let padding = layout.padding_for(tail as int, payload.len() as int);
    let place = layout.place_of(tail, payload.len() as int);
    law_transmit_moves_counters(layout, s, msg_type, payload);
    position::lemma_valid_capacity(layout.capacity as int);
    position::lemma_aligned(payload.len() + RECORD_HEADER_LENGTH);
    position::lemma_index_aligned(tail as int, layout.capacity as int);
    position::lemma_index_wraps(tail, padding, layout.capacity as int);
    position::lemma_index_step(tail as int, padding, layout.capacity as int);
    lemma_two_steps(tail, padding, need);
    lemma_latest_message(layout, s, msg_type, payload, place as int);
    assert(rx.behind(t) == need);
}

/// A receiver that has read everything stands at the tail and sees nothing more
/// until the next message.
pub proof fn law_receive_drains(before: BroadcastReceiver, after: BroadcastReceiver, s: Seq<u8>)
    requires
        before.fits(s),
        before.layout.capacity <= i64::MAX,
        after.layout == before.layout,
        before.start(s) as int % 32 == 0,
        before.layout.tail(s) as int % 32 == 0,
        0 <= before.layout.tail(s).wrapping_sub(before.start(s)) <= before.layout.capacity,
        before.layout.extent(s, before.start(s) as int, before.behind(s)) == before.behind(s),
        after.cursor == before.start(s).wrapping_add(
            before.layout.extent(s, before.start(s) as int, before.behind(s)) as i64,
        ),
    ensures
        after.cursor == before.layout.tail(s),
        after.in_step(s),
        after.unread(s) == Seq::<(i32, Seq<u8>)>::empty(),
        !after.lapped(s),
{
}

/// A receiver that has read everything is given exactly the messages that were
/// transmitted since, in order, and nothing more by the next call.
pub proof fn law_receive_gives_back_transmissions(
    before: BroadcastReceiver,
    after: BroadcastReceiver,
    s: Seq<u8>,
    messages: Seq<(i32, Seq<u8>)>,
)
    requires
        before.in_step(s),
        before.cursor == before.layout.tail(s),
        before.layout.capacity <= i64::MAX,
        forall|i: int|
            0 <= i < messages.len() ==> before.can_follow(
                before.layout.transmitted_all(s, messages, i),
                #[trigger] messages[i],
            ),
        after.layout == before.layout,
        ({
            let t = before.layout.transmitted_all(s, messages, messages.len() as int);
            after.cursor == before.start(t).wrapping_add(
                before.layout.extent(t, before.start(t) as int, before.behind(t)) as i64,
            )
        }),
    ensures
        ({
            let t = before.layout.transmitted_all(s, messages, messages.len() as int);
            &&& !before.lapped(t)
            &&& before.unread(t) == messages
            &&& after.cursor == before.layout.tail(t)
            &&& after.in_step(t)
            &&& after.unread(t) == Seq::<(i32, Seq<u8>)>::empty()
        }),
{
    let t = before.layout.transmitted_all(s, messages, messages.len() as int);
    law_transmits_wait_in_order(before, s, messages, messages.len() as int);
    assert(before.unread(s) =~= Seq::<(i32, Seq<u8>)>::empty());
    assert(before.unread(s) + messages.subrange(0, messages.len() as int) =~= messages);
    law_receive_drains(before, after, t);
}

/// Makes a broadcast buffer of the given capacity over a region of its own, all
/// zeros.
pub fn new_heap_broadcast(capacity: usize) -> (r: Result<
    (Vec<u8>, BroadcastTransmitter),
    BroadcastError,
>)
    ensures
        match r {
            Ok((buffer, tx)) => {
                &&& position::valid_capacity(capacity as int)
                &&& buffer@ == wire::zeros((capacity + TRAILER_LENGTH) as nat)
                &&& tx.fits(buffer@)
                &&& tx.layout.offset == 0
                &&& tx.layout.capacity == capacity
            },
            Err(e) => !position::valid_capacity(capacity as int) && e
                == BroadcastError::InvalidCapacity,
        },
{
    if capacity < RECORD_ALIGNMENT || !capacity.is_power_of_two() {
        return Err(BroadcastError::InvalidCapacity);
    }
    proof {
        position::lemma_capacity_with_trailer(capacity);
    }
    let buffer: Vec<u8> = vec![0u8; required_buffer_size(capacity)];
    assert(buffer@ =~= wire::zeros((capacity + TRAILER_LENGTH) as nat));
    match BroadcastTransmitter::new(buffer.as_slice(), 0, capacity) {
        Ok(tx) => Ok((buffer, tx)),
        Err(e) => Err(e),
    }
}

/// A transmitter is made exactly where the capacity is a power of two of 32 bytes
/// or more and the region holds it with the 128 bytes behind it.
pub proof fn law_transmitter_is_made_where_it_fits(
    region: &[u8],
    offset: usize,
    capacity: usize,
    r: Result<BroadcastTransmitter, BroadcastError>,
)
    requires
        call_ensures(BroadcastTransmitter::new, (region, offset, capacity), r),
    ensures
        r is Ok <==> capacity >= 32 && power2::is_pow2(capacity as int) && offset + capacity + 128
            <= region@.len(),
        r matches Err(e) ==> e == BroadcastError::InvalidCapacity,
        r matches Ok(tx) ==> tx == (BroadcastTransmitter {
            layout: BroadcastLayout { offset, capacity, mask: (capacity - 1) as usize },
            max_record_length: (capacity - 8) as usize,
        }),
{
}

/// A broadcast buffer of its own has its whole region at zero, and can be made
/// exactly where its capacity is a power of two of 32 bytes or more.
pub proof fn law_heap_broadcast_starts_empty(
    capacity: usize,
    r: Result<(Vec<u8>, BroadcastTransmitter), BroadcastError>,
)
    requires
        call_ensures(new_heap_broadcast, (capacity,), r),
    ensures
        r is Ok <==> capacity >= 32 && power2::is_pow2(capacity as int),
        r matches Err(e) ==> e == BroadcastError::InvalidCapacity,
        r matches Ok((region, tx)) ==> {
            &&& region@.len() == capacity + 128
            &&& forall|k: int| 0 <= k < region@.len() ==> #[trigger] region@[k] == 0
            &&& tx.layout.offset == 0
            &&& tx.layout.capacity == capacity
        },
{
}

/// A broadcast buffer takes 128 bytes more than its data, and a message at most
/// all of the data but the 8 bytes of a header.
pub proof fn law_sizes_of_a_broadcast(
    tx: &BroadcastTransmitter,
    capacity: usize,
    size: usize,
    longest: usize,
    data: usize,
)
    requires
        tx.wf(),
        call_ensures(required_buffer_size, (capacity,), size),
        call_ensures(BroadcastTransmitter::max_message_length, (tx,), longest),
        call_ensures(BroadcastTransmitter::capacity, (tx,), data),
    ensures
        size == capacity + 128,
        data == tx.layout.capacity,
        longest == tx.layout.capacity - 8,
{
}

/// The counters stand behind the data, the tail first and the place of the last
/// message 64 bytes further.
pub proof fn law_counters_stand_behind_the_data(
    tx: &BroadcastTransmitter,
    layout: &BroadcastLayout,
    region: &[u8],
    tail: i64,
    layout_tail: i64,
    latest: i64,
)
    requires
        tx.fits(region@),
        *layout == tx.layout,
        call_ensures(BroadcastTransmitter::tail_counter, (tx, region), tail),
        call_ensures(BroadcastLayout::tail_counter, (layout, region), layout_tail),
        call_ensures(BroadcastLayout::latest_counter, (layout, region), latest),
    ensures
        tail == wire::i64_at(region@, layout.offset + layout.capacity),
        layout_tail == tail,
        latest == wire::i64_at(region@, layout.offset + layout.capacity + 64),
{
}

/// A receiver starts where it was told to, and was never lapped.
pub proof fn law_receiver_starts_at_its_cursor(
    offset: usize,
    capacity: usize,
    cursor: i64,
    rx: BroadcastReceiver,
    laps: u64,
)
    requires
        call_ensures(BroadcastReceiver::new, (offset, capacity, cursor), rx),
        call_ensures(BroadcastReceiver::lapped_count, (&rx,), laps),
    ensures
        rx == (BroadcastReceiver {
            layout: BroadcastLayout { offset, capacity, mask: (capacity - 1) as usize },
            cursor,
            lapped_count: 0,
        }),
        laps == 0,
{
}

/// A message goes out exactly where it and the 8 bytes of its header fit into the
/// buffer; one that does not changes nothing. It stands where the tail was, or at
/// the front behind a padding record where it would have run over the end:
/// length with the header, type, payload. The tail moves on by the record,
/// rounded up to a multiple of 32, and the padding, and the place of the record
/// is noted.
#[verifier::rlimit(40)]
#[verifier::spinoff_prover]
pub proof fn law_transmitted_message_stands_at_the_tail(
    tx: &BroadcastTransmitter,
    before: Seq<u8>,
    after: Seq<u8>,
    msg_type: i32,
    payload: &[u8],
    need: int,
    r: Result<(), BroadcastError>,
)
    requires
        tx.fits(before),
        tx.layout.capacity <= i32::MAX,
        wire::i64_at(before, tx.layout.offset + tx.layout.capacity) as int % 32 == 0,
        exists|region: &mut [u8]|
            (*region)@ == before && (*final(region))@ == after && #[trigger] call_ensures(
                BroadcastTransmitter::transmit,
                (tx, region, msg_type, payload),
                r,
            ),
        need % 32 == 0,
        payload@.len() + 8 <= need < payload@.len() + 8 + 32,
    ensures
        r == if payload@.len() + 8 <= tx.layout.capacity {
            Ok::<(), BroadcastError>(())
        } else {
            Err::<(), BroadcastError>(BroadcastError::MessageTooLarge)
        },
        r is Err ==> after == before,
        r is Ok ==> ({
            let capacity = tx.layout.capacity as int;
            let tail = wire::i64_at(before, tx.layout.offset + capacity);
            let index = tail as int % capacity;
            let room = capacity - index;
            let start = tx.layout.offset + if need <= room {
                index
            } else {
                0
            };
            let padding = if need <= room {
                0
            } else {
                room
            };
            &&& after.len() == before.len()
            &&& wire::i32_at(after, start) == payload@.len() + 8
            &&& wire::i32_at(after, start + 4) == msg_type
            &&& forall|k: int|
                0 <= k < payload@.len() ==> #[trigger] after[start + 8 + k] == payload@[k]
            &&& need > room && need <= index ==> wire::i32_at(after, tx.layout.offset + index)
                == room && wire::i32_at(after, tx.layout.offset + index + 4) == -1
            &&& wire::i64_at(after, tx.layout.offset + capacity) == tail.wrapping_add(
                (padding + need) as i64,
            )
            &&& wire::i64_at(after, tx.layout.offset + capacity + 64) == tail.wrapping_add(
                padding as i64,
            )
            &&& forall|k: int|
                0 <= k < before.len() && !(start <= k < start + need) && !(need > room
                    && tx.layout.offset + index <= k < tx.layout.offset + index + 8) && !(
                tx.layout.offset + capacity <= k < tx.layout.offset + capacity + 8) && !(
                tx.layout.offset + capacity + 64 <= k < tx.layout.offset + capacity + 72)
                    ==> #[trigger] after[k] == before[k]
        }),
{
    let layout = tx.layout;
    let n = payload@.len() as int;
    position::lemma_aligned(n + 8);
    assert(need == position::aligned(n + 8));
    if n + 8 <= layout.capacity {
        let capacity = layout.capacity as int;
        let tail = layout.tail(before);
        position::lemma_valid_capacity(capacity);
        position::lemma_index_aligned(tail as int, capacity);
        let padding = layout.padding_for(tail as int, n);
        law_transmit_moves_counters(layout, before, msg_type, payload@);
        lemma_two_steps(tail, padding, need);
        let start = layout.offset + if padding > 0 {
            0
        } else {
            layout.index(tail as int)
        };
        let record = record_bytes(msg_type, payload@);
        assert(record.len() == need);
        assert forall|k: int| 0 <= k < need implies #[trigger] record[k] == after[start + k] by {}
        let length = (n + 8) as i32;
        assert forall|i: int| 0 <= i < 4 implies after[start + i] == #[trigger] wire::i32_le(
            length,
        )[i] by {
            assert(record[i] == wire::i32_le(length)[i]);
        }
        wire::lemma_i32_at_le(after, start, length);
        assert forall|i: int| 0 <= i < 4 implies after[start + 4 + i] == #[trigger] wire::i32_le(
            msg_type,
        )[i] by {
            assert(record[4 + i] == wire::i32_le(msg_type)[i]);
        }
        wire::lemma_i32_at_le(after, start + 4, msg_type);
        assert forall|k: int| 0 <= k < n implies #[trigger] after[start + 8 + k]
            == payload@[k] by {
            assert(record[8 + k] == payload@[k]);
        }
        if padding > 0 && need <= layout.index(tail as int) {
            let pad = layout.offset + layout.index(tail as int);
            let header = padding_header(padding);
            let room = padding as i32;
            assert forall|i: int| 0 <= i < 4 implies after[pad + i] == #[trigger] wire::i32_le(
                room,
            )[i] by {
                assert(header[i] == wire::i32_le(room)[i]);
            }
            wire::lemma_i32_at_le(after, pad, room);
            assert forall|i: int| 0 <= i < 4 implies after[pad + 4 + i] == #[trigger] wire::i32_le(
                MSG_TYPE_PADDING,
            )[i] by {
                assert(header[4 + i] == wire::i32_le(MSG_TYPE_PADDING)[i]);
            }
            wire::lemma_i32_at_le(after, pad + 4, MSG_TYPE_PADDING);
        }
    }
}

/// A receiver that the message does not lap is given, after it was transmitted,
/// what it had not read yet and then that message, and stands at the tail.
#[verifier::rlimit(40)]
#[verifier::spinoff_prover]
pub proof fn law_transmitted_message_is_received(
    tx: &BroadcastTransmitter,
    rx: BroadcastReceiver,
    rx_after: BroadcastReceiver,
    before: Seq<u8>,
    region: &[u8],
    msg_type: i32,
    payload: &[u8],
    need: int,
    earlier: Seq<RingMessage>,
    taken: Seq<RingMessage>,
    r: i32,
)
    requires
        rx.layout == tx.layout,
        rx.in_step(before),
        rx.layout.capacity <= i32::MAX,
        msg_type != -1,
        need % 32 == 0,
        payload@.len() + 8 <= need < payload@.len() + 8 + 32,
        ({
            let capacity = rx.layout.capacity as int;
            let tail = wire::i64_at(before, rx.layout.offset + capacity);
            let room = capacity - tail as int % capacity;
            tail.wrapping_sub(rx.cursor) + need + (if need <= room {
                0
            } else {
                room
            }) <= capacity
        }),
        exists|written: &mut [u8]|
            (*written)@ == before && (*final(written))@ == region@ && #[trigger] call_ensures(
                BroadcastTransmitter::transmit,
                (tx, written, msg_type, payload),
                Ok(()),
            ),
        exists|receiver: &mut BroadcastReceiver, messages: &mut Vec<RingMessage>|
            *receiver == rx && *final(receiver) == rx_after && (*messages)@ == earlier
                && (*final(messages))@ == taken && #[trigger] call_ensures(
                BroadcastReceiver::receive,
                (receiver, region, messages),
                r,
            ),
    ensures
        ring_buffer::message_views(taken) == ring_buffer::message_views(earlier) + rx.unread(
            before,
        ).push((msg_type, payload@)),
        r == rx.unread(before).len() + 1,
        rx_after.layout == rx.layout,
        rx_after.lapped_count == rx.lapped_count,
        rx_after.cursor == wire::i64_at(region@, rx.layout.offset + rx.layout.capacity),
        rx_after.unread(region@) == Seq::<(i32, Seq<u8>)>::empty(),
{
    let n = payload@.len() as int;
    position::lemma_aligned(n + 8);
    assert(need == position::aligned(n + 8));
    position::lemma_valid_capacity(rx.layout.capacity as int);
    position::lemma_index_aligned(rx.layout.tail(before) as int, rx.layout.capacity as int);
    law_transmit_appends(rx, before, msg_type, payload@);
    law_receive_drains(rx, rx_after, region@);
}

/// A receiver that was lapped is given the last message alone, counts the lap and
/// stands at the tail.
#[verifier::rlimit(40)]
#[verifier::spinoff_prover]
pub proof fn law_lapped_receiver_skips_ahead(
    tx: &BroadcastTransmitter,
    rx: BroadcastReceiver,
    rx_after: BroadcastReceiver,
    before: Seq<u8>,
    region: &[u8],
    msg_type: i32,
    payload: &[u8],
    earlier: Seq<RingMessage>,
    taken: Seq<RingMessage>,
    r: i32,
)
    requires
        rx.layout == tx.layout,
        rx.fits(before),
        rx.layout.capacity <= i32::MAX,
        msg_type != -1,
        payload@.len() + 8 <= rx.layout.capacity,
        wire::i64_at(before, rx.layout.offset + rx.layout.capacity) as int % 32 == 0,
        wire::i64_at(region@, rx.layout.offset + rx.layout.capacity).wrapping_sub(rx.cursor)
            > rx.layout.capacity,
        exists|written: &mut [u8]|
            (*written)@ == before && (*final(written))@ == region@ && #[trigger] call_ensures(
                BroadcastTransmitter::transmit,
                (tx, written, msg_type, payload),
                Ok(()),
            ),
        exists|receiver: &mut BroadcastReceiver, messages: &mut Vec<RingMessage>|
            *receiver == rx && *final(receiver) == rx_after && (*messages)@ == earlier
                && (*final(messages))@ == taken && #[trigger] call_ensures(
                BroadcastReceiver::receive,
                (receiver, region, messages),
                r,
            ),
    ensures
        ring_buffer::message_views(taken) == ring_buffer::message_views(earlier).push(
            (msg_type, payload@),
        ),
        r == 1,
        rx_after.layout == rx.layout,
        rx_after.lapped_count == rx.lapped_count + 1,
        rx_after.cursor == wire::i64_at(region@, rx.layout.offset + rx.layout.capacity),
{
    position::lemma_aligned(payload@.len() as int + 8);
    position::lemma_valid_capacity(rx.layout.capacity as int);
    position::lemma_index_aligned(rx.layout.tail(before) as int, rx.layout.capacity as int);
    law_lapped_receiver_gets_last_message(rx, before, msg_type, payload@);
    assert(ring_buffer::message_views(earlier) + seq![(msg_type, payload@)]
        =~= ring_buffer::message_views(earlier).push((msg_type, payload@)));
}

/// What each error says.
pub proof fn law_broadcast_error_says_what_is_wrong(e: &BroadcastError, r: String)
    requires
        call_ensures(BroadcastError::to_string, (e,), r),
    ensures
        match *e {
            BroadcastError::InvalidCapacity => r@ == "capacity must be power-of-two >= 32"@,
            BroadcastError::MessageTooLarge => r@ == "message too large for broadcast buffer"@,
        },
{
}

/// A receiver that was not lapped reads from its cursor on. A record that stands
/// there comes out first, with its type and its payload; where none can stand,
/// nothing comes out and the cursor stays.
pub proof fn law_receive_starts_at_the_cursor(
    rx: BroadcastReceiver,
    rx_after: BroadcastReceiver,
    region: &[u8],
    earlier: Seq<RingMessage>,
    taken: Seq<RingMessage>,
    need: int,
    r: i32,
)
    requires
        rx.fits(region@),
        exists|receiver: &mut BroadcastReceiver, messages: &mut Vec<RingMessage>|
            *receiver == rx && *final(receiver) == rx_after && (*messages)@ == earlier
                && (*final(messages))@ == taken && #[trigger] call_ensures(
                BroadcastReceiver::receive,
                (receiver, region, messages),
                r,
            ),
        need % 32 == 0,
        ({
            let capacity = rx.layout.capacity as int;
            let tail = wire::i64_at(region@, rx.layout.offset + capacity);
            let start = rx.layout.offset + rx.cursor as int % capacity;
            let length = wire::i32_at(region@, start);
            &&& rx.cursor as int % 32 == 0
            &&& tail as int % 32 == 0
            &&& 0 <= tail.wrapping_sub(rx.cursor) <= capacity
            &&& length <= need < length + 32
        }),
    ensures
        rx_after.layout == rx.layout,
        rx_after.lapped_count == rx.lapped_count,
        ({
            let capacity = rx.layout.capacity as int;
            let tail = wire::i64_at(region@, rx.layout.offset + capacity);
            let behind = tail.wrapping_sub(rx.cursor);
            let index = rx.cursor as int % capacity;
            let start = rx.layout.offset + index;
            let length = wire::i32_at(region@, start);
            let msg_type = wire::i32_at(region@, start + 4);
            let right = behind > 0 && index + need <= capacity && need <= behind;
            &&& right && msg_type != -1 && length >= 8 ==> {
                &&& r >= 1
                &&& taken.len() == earlier.len() + r
                &&& taken[earlier.len() as int].msg_type == msg_type
                &&& taken[earlier.len() as int].payload@ == region@.subrange(
                    start + 8,
                    start + length,
                )
            }
            &&& behind == 0 || !right || length <= 0 || (msg_type != -1 && length < 8) ==> {
                &&& r == 0
                &&& ring_buffer::message_views(taken) == ring_buffer::message_views(earlier)
                &&& rx_after.cursor == rx.cursor
            }
        }),
{
    let layout = rx.layout;
    let s = region@;
    let p = rx.cursor as int;
    let n = rx.behind(s);
    assert(!rx.lapped(s));
    let step = layout.step_at(s, p);
    position::lemma_aligned(layout.length_at(s, p) as int);
    assert(need == step);
    let unread = rx.unread(s);
    assert(ring_buffer::message_views(taken).len() == ring_buffer::message_views(earlier).len()
        + unread.len());
    if n > 0 && layout.readable(s, p, n) && layout.type_at(s, p) != MSG_TYPE_PADDING {
        let first = (layout.type_at(s, p), layout.payload_at(s, p));
        let rest = layout.messages(s, p + step, n - step);
        assert(unread == seq![first] + rest);
        assert(unread[0] == first);
        assert(ring_buffer::message_views(taken)[earlier.len() as int] == unread[0]);
        assert(taken[earlier.len() as int]@ == first);
    } else if n == 0 || !layout.readable(s, p, n) {
        assert(ring_buffer::message_views(earlier) + unread =~= ring_buffer::message_views(
            earlier,
        ));
        assert(rx.cursor.wrapping_add(0) == rx.cursor);
    }
}

} // verus!
