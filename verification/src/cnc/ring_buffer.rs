//! Ring buffer that many producers write and one consumer reads, laid out in a
//! contiguous byte region.
//!
//! Layout for a data capacity `C` (a power of two), from the ring's offset on:
//!
//! ```text
//!   [0..C)       message records
//!   [C..C+128)   trailer: head position at 0, tail position at 64
//! ```
//!
//! Record, aligned to 32 bytes:
//!
//! ```text
//!   [i32 msg_type | i32 record_length | payload | zeros up to the alignment]
//! ```
//!
//! A record is committed once its length is set, and the reader sets the length
//! back to zero. A record never wraps. Where one does not fit before the end of
//! the ring, a padding record fills the rest and the record goes to the front.

use crate::cnc::position;
use crate::cnc::position::{align_record, masked_index, RECORD_ALIGNMENT};
use crate::wire;
use vstd::arithmetic::power2;
use vstd::prelude::*;

verus! {

broadcast use wire::lemma_u32_le_len;

/// Record header: `[i32 msg_type | i32 record_length]`.
pub const RECORD_HEADER_LENGTH: usize = 8;

/// Message type of a padding record (skip to the front of the ring).
pub const MSG_TYPE_PADDING: i32 = -1;

/// Bytes behind the data region that hold the positions.
pub const TRAILER_LENGTH: usize = 128;

/// Where the head position stands in the trailer.
pub const HEAD_POSITION_OFFSET: usize = 0;

/// Where the tail position stands in the trailer (a cache line of its own).
pub const TAIL_POSITION_OFFSET: usize = 64;

/// What can go wrong with a ring buffer.
#[derive(Debug, Clone, Copy, PartialEq, Eq, Structural)]
pub enum RingBufferError {
    /// Capacity is not a power of two or is too small.
    InvalidCapacity,
    /// The region is too small for capacity and trailer.
    BufferTooSmall,
    /// Message is too large for the ring buffer.
    MessageTooLarge,
    /// Ring buffer is full (the consumer cannot keep up).
    Full,
}

impl RingBufferError {
    /// Text of the error.
    pub open spec fn text(self) -> Seq<char> {
        match self {
            RingBufferError::InvalidCapacity => "capacity must be power-of-two >= 32"@,
            RingBufferError::BufferTooSmall => "buffer too small for capacity + trailer"@,
            RingBufferError::MessageTooLarge => "message too large for ring buffer"@,
            RingBufferError::Full => "ring buffer full"@,
        }
    }

    /// Text of the error.
    pub fn to_string(&self) -> (r: String)
        ensures
            r@ == self.text(),
    {
        match self {
            RingBufferError::InvalidCapacity => "capacity must be power-of-two >= 32".to_owned(),
            RingBufferError::BufferTooSmall => "buffer too small for capacity + trailer".to_owned(),
            RingBufferError::MessageTooLarge => "message too large for ring buffer".to_owned(),
            RingBufferError::Full => "ring buffer full".to_owned(),
        }
    }
}

/// Region size needed for a data capacity (capacity and trailer).
pub fn required_buffer_size(capacity: usize) -> (r: usize)
    requires
        capacity + TRAILER_LENGTH <= usize::MAX,
    ensures
        r == capacity + TRAILER_LENGTH,
{
    capacity + TRAILER_LENGTH
}

/// A message taken out of the ring.
#[derive(Debug)]
pub struct RingMessage {
    pub msg_type: i32,
    pub payload: Vec<u8>,
}

impl View for RingMessage {
    type V = (i32, Seq<u8>);

    open spec fn view(&self) -> (i32, Seq<u8>) {
        (self.msg_type, self.payload@)
    }
}

/// The messages that a sequence of taken messages stands for.
pub open spec fn message_views(v: Seq<RingMessage>) -> Seq<(i32, Seq<u8>)> {
    v.map_values(|m: RingMessage| m@)
}

/// Bytes of a record: header, payload, zeros up to the alignment.
pub open spec fn record_bytes(msg_type: i32, payload: Seq<u8>) -> Seq<u8> {
    let length = payload.len() + RECORD_HEADER_LENGTH;
    wire::i32_le(msg_type) + wire::i32_le(length as i32) + payload + wire::zeros(
        (position::aligned(length) - length) as nat,
    )
}

/// Bytes of the header of a padding record.
pub open spec fn padding_header(length: int) -> Seq<u8> {
    wire::i32_le(MSG_TYPE_PADDING) + wire::i32_le(length as i32)
}

/// The space that a producer has claimed for one record.
#[derive(Debug, Clone, Copy, PartialEq, Eq, Structural)]
pub struct Claim {
    /// Tail position before the claim.
    pub tail: i64,
    /// Tail position after the claim.
    pub new_tail: i64,
    /// Index of the padding record, where there is one.
    pub pad_index: usize,
    /// Length of the padding record, zero where there is none.
    pub pad_length: usize,
    /// Index of the record.
    pub index: usize,
    /// Length of the record with its alignment.
    pub aligned_length: usize,
}

/// Where a ring buffer lies in a byte region.
///
/// The ring does not own the region: each operation is handed the region.
#[derive(Debug, Clone, Copy, PartialEq, Eq, Structural)]
pub struct MpscRingBuffer {
    /// Start of the ring in the region.
    pub offset: usize,
    /// Data capacity in bytes (a power of two).
    pub capacity: usize,
    /// `capacity - 1`.
    pub mask: usize,
    /// `capacity - RECORD_HEADER_LENGTH`.
    pub max_record_length: usize,
}

impl MpscRingBuffer {
    /// The fields fit together.
    pub open spec fn wf(&self) -> bool {
        &&& position::valid_capacity(self.capacity as int)
        &&& self.mask == self.capacity - 1
        &&& self.max_record_length == self.capacity - RECORD_HEADER_LENGTH
        &&& self.offset + self.capacity + TRAILER_LENGTH <= usize::MAX
    }

    /// The ring lies within the region.
    pub open spec fn fits(&self, s: Seq<u8>) -> bool {
        &&& self.wf()
        &&& self.offset + self.capacity + TRAILER_LENGTH <= s.len()
    }

    /// Position of the consumer.
    pub open spec fn head(&self, s: Seq<u8>) -> i64 {
        wire::i64_at(s, self.offset + self.capacity + HEAD_POSITION_OFFSET)
    }

    /// Position of the producers.
    pub open spec fn tail(&self, s: Seq<u8>) -> i64 {
        wire::i64_at(s, self.offset + self.capacity + TAIL_POSITION_OFFSET)
    }

    /// Bytes between head and tail.
    pub open spec fn used(&self, s: Seq<u8>) -> int {
        self.tail(s).wrapping_sub(self.head(s)) as int
    }

    /// Head and tail are record boundaries at most one ring apart.
    pub open spec fn consistent(&self, s: Seq<u8>) -> bool {
        &&& 0 <= self.used(s) <= self.capacity
        &&& self.head(s) as int % 32 == 0
        &&& self.tail(s) as int % 32 == 0
    }

    /// Index of a position.
    pub open spec fn index(&self, p: int) -> int {
        position::index_of(p, self.capacity as int)
    }

    /// Type of the record at a position.
    pub open spec fn type_at(&self, s: Seq<u8>, p: int) -> i32 {
        wire::i32_at(s, self.offset + self.index(p))
    }

    /// Length of the record at a position.
    pub open spec fn length_at(&self, s: Seq<u8>, p: int) -> i32 {
        wire::i32_at(s, self.offset + self.index(p) + 4)
    }

    /// Length with alignment of the record at a position.
    pub open spec fn step_at(&self, s: Seq<u8>, p: int) -> int {
        position::aligned(self.length_at(s, p) as int)
    }

    /// A committed record stands at the position, within the ring and within
    /// the `n` bytes up to the tail.
    pub open spec fn readable(&self, s: Seq<u8>, p: int, n: int) -> bool {
        &&& self.length_at(s, p) >= if self.type_at(s, p) == MSG_TYPE_PADDING {
            1
        } else {
            RECORD_HEADER_LENGTH as int
        }
        &&& self.index(p) + self.step_at(s, p) <= self.capacity
        &&& self.step_at(s, p) <= n
    }

    /// Payload of the record at a position.
    pub open spec fn payload_at(&self, s: Seq<u8>, p: int) -> Seq<u8> {
        let start = self.offset + self.index(p);
        s.subrange(start + RECORD_HEADER_LENGTH, start + self.length_at(s, p))
    }

    /// Messages from a position on, up to `n` bytes further or to the first
    /// record that is not committed. Padding is skipped.
    pub open spec fn messages(&self, s: Seq<u8>, p: int, n: int) -> Seq<(i32, Seq<u8>)>
        decreases n,
    {
        if n <= 0 || !self.readable(s, p, n) {
            Seq::empty()
        } else {
            let step = self.step_at(s, p);
            let rest = self.messages(s, p + step, n - step);
            if self.type_at(s, p) == MSG_TYPE_PADDING {
                rest
            } else {
                seq![(self.type_at(s, p), self.payload_at(s, p))] + rest
            }
        }
    }

    /// How many bytes those messages and the padding between them take.
    pub open spec fn extent(&self, s: Seq<u8>, p: int, n: int) -> int
        decreases n,
    {
        if n <= 0 || !self.readable(s, p, n) {
            0
        } else {
            let step = self.step_at(s, p);
            step + self.extent(s, p + step, n - step)
        }
    }

    /// `t` with the lengths of those records set to zero.
    pub open spec fn cleared(&self, t: Seq<u8>, s: Seq<u8>, p: int, n: int) -> Seq<u8>
        decreases n,
    {
        if n <= 0 || !self.readable(s, p, n) {
            t
        } else {
            let step = self.step_at(s, p);
            self.cleared(
                wire::splice(t, self.offset + self.index(p) + 4, wire::i32_le(0)),
                s,
                p + step,
                n - step,
            )
        }
    }

    /// The messages that wait in the ring.
    pub open spec fn pending(&self, s: Seq<u8>) -> Seq<(i32, Seq<u8>)> {
        self.messages(s, self.head(s) as int, self.used(s))
    }

    /// Every record between head and tail is committed.
    pub open spec fn committed(&self, s: Seq<u8>) -> bool {
        &&& self.consistent(s)
        &&& self.extent(s, self.head(s) as int, self.used(s)) == self.used(s)
    }

    /// The region after everything that waits has been read.
    pub open spec fn after_read(&self, s: Seq<u8>) -> Seq<u8> {
        let head = self.head(s);
        let extent = self.extent(s, head as int, self.used(s));
        if extent == 0 {
            s
        } else {
            wire::splice(
                self.cleared(s, s, head as int, self.used(s)),
                self.offset + self.capacity + HEAD_POSITION_OFFSET,
                wire::i64_le(head.wrapping_add(extent as i64)),
            )
        }
    }

    /// `s` and `t` hold the same bytes for the `n` positions from `p` on.
    pub open spec fn agree(&self, s: Seq<u8>, t: Seq<u8>, p: int, n: int) -> bool {
        forall|q: int|
            p <= q < p + n ==> s[self.offset + #[trigger] self.index(q)] == t[self.offset
                + self.index(q)]
    }

    /// What a producer that sees the given positions may claim.
    pub open spec fn claim_of(&self, head: i64, tail: i64, payload_length: int) -> Result<
        Claim,
        RingBufferError,
    > {
        let need = position::aligned(payload_length + RECORD_HEADER_LENGTH);
        let free = self.capacity - tail.wrapping_sub(head);
        let index = self.index(tail as int);
        let room = self.capacity - index;
        if payload_length + RECORD_HEADER_LENGTH > self.capacity {
            Err(RingBufferError::MessageTooLarge)
        } else if need > free || (need > room && room + need > free) {
            Err(RingBufferError::Full)
        } else if need > room {
            Ok(
                Claim {
                    tail,
                    new_tail: tail.wrapping_add((room + need) as i64),
                    pad_index: index as usize,
                    pad_length: room as usize,
                    index: 0,
                    aligned_length: need as usize,
                },
            )
        } else {
            Ok(
                Claim {
                    tail,
                    new_tail: tail.wrapping_add(need as i64),
                    pad_index: 0,
                    pad_length: 0,
                    index: index as usize,
                    aligned_length: need as usize,
                },
            )
        }
    }

    /// The lengths that a write of such a payload stores fit into their fields.
    pub open spec fn storable(&self, s: Seq<u8>, payload_length: int) -> bool {
        match self.claim_of(self.head(s), self.tail(s), payload_length) {
            Ok(claim) => payload_length + RECORD_HEADER_LENGTH <= i32::MAX && claim.pad_length
                <= i32::MAX,
            Err(_) => true,
        }
    }

    /// The region after a write that may fail for want of room.
    pub open spec fn sent(&self, s: Seq<u8>, msg_type: i32, payload: Seq<u8>) -> Seq<u8> {
        match self.claim_of(self.head(s), self.tail(s), payload.len() as int) {
            Ok(claim) => self.written(s, claim, msg_type, payload),
            Err(_) => s,
        }
    }

    /// The region after the first `k` of a sequence of messages were written.
    pub open spec fn sent_all(
        &self,
        s: Seq<u8>,
        messages: Seq<(i32, Seq<u8>)>,
        k: int,
    ) -> Seq<u8>
        decreases k,
    {
        if k <= 0 {
            s
        } else {
            let (msg_type, payload) = messages[k - 1];
            self.sent(self.sent_all(s, messages, k - 1), msg_type, payload)
        }
    }

    /// Writing a message succeeds, and it is one that can be read back.
    pub open spec fn takes(&self, s: Seq<u8>, message: (i32, Seq<u8>)) -> bool {
        &&& message.0 != MSG_TYPE_PADDING
        &&& self.storable(s, message.1.len() as int)
        &&& self.claim_of(self.head(s), self.tail(s), message.1.len() as int) is Ok
    }

    /// The region after the claimed record has been written.
    pub open spec fn written(
        &self,
        s: Seq<u8>,
        claim: Claim,
        msg_type: i32,
        payload: Seq<u8>,
    ) -> Seq<u8> {
        let moved = wire::splice(
            s,
            self.offset + self.capacity + TAIL_POSITION_OFFSET,
            wire::i64_le(claim.new_tail),
        );
        let padded = if claim.pad_length > 0 {
            wire::splice(
                moved,
                self.offset + claim.pad_index,
                padding_header(claim.pad_length as int),
            )
        } else {
            moved
        };
        wire::splice(padded, self.offset + claim.index, record_bytes(msg_type, payload))
    }

    /// Places a ring of the given capacity at `offset` in a region.
    pub fn new(buffer: &[u8], offset: usize, capacity: usize) -> (r: Result<Self, RingBufferError>)
        ensures
            match r {
                Ok(ring) => ring.fits(buffer@) && ring.offset == offset && ring.capacity
                    == capacity,
                Err(e) => e == if !position::valid_capacity(capacity as int) {
                    RingBufferError::InvalidCapacity
                } else {
                    RingBufferError::BufferTooSmall
                },
            },
            r is Ok <==> position::valid_capacity(capacity as int) && offset + capacity
                + TRAILER_LENGTH <= buffer@.len(),
    {
        if capacity < RECORD_ALIGNMENT || !capacity.is_power_of_two() {
            return Err(RingBufferError::InvalidCapacity);
        }
        if buffer.len() < offset || buffer.len() - offset < capacity || buffer.len() - offset
            - capacity < TRAILER_LENGTH {
            return Err(RingBufferError::BufferTooSmall);
        }
        Ok(
            MpscRingBuffer {
                offset,
                capacity,
                mask: capacity - 1,
                max_record_length: capacity - RECORD_HEADER_LENGTH,
            },
        )
    }

    /// Data capacity in bytes.
    pub fn capacity(&self) -> (r: usize)
        ensures
            r == self.capacity,
    {
        self.capacity
    }

    /// Largest payload of a single message.
    pub fn max_message_length(&self) -> (r: usize)
        requires
            self.wf(),
        ensures
            r == self.capacity - RECORD_HEADER_LENGTH,
    {
        self.max_record_length
    }

    /// Position of the consumer.
    pub fn head_position(&self, buffer: &[u8]) -> (r: i64)
        requires
            self.fits(buffer@),
        ensures
            r == self.head(buffer@),
    {
        wire::read_i64(buffer, self.offset + self.capacity + HEAD_POSITION_OFFSET)
    }

    /// Position of the producers.
    pub fn tail_position(&self, buffer: &[u8]) -> (r: i64)
        requires
            self.fits(buffer@),
        ensures
            r == self.tail(buffer@),
    {
        wire::read_i64(buffer, self.offset + self.capacity + TAIL_POSITION_OFFSET)
    }

    /// Decides what a producer that sees the given positions may claim.
    pub fn claim(&self, head: i64, tail: i64, payload_length: usize) -> (r: Result<
        Claim,
        RingBufferError,
    >)
        requires
            self.wf(),
        ensures
            r == self.claim_of(head, tail, payload_length as int),
    {
        if payload_length > self.max_record_length {
            return Err(RingBufferError::MessageTooLarge);
        }
        let record_length: usize = payload_length + RECORD_HEADER_LENGTH;
        proof {
            position::lemma_valid_capacity(self.capacity as int);
            position::lemma_aligned(record_length as int);
        }
        let aligned_length: usize = align_record(record_length);
        let available: i128 = self.capacity as i128 - tail.wrapping_sub(head) as i128;
        if aligned_length as i128 > available {
            return Err(RingBufferError::Full);
        }
        let tail_index: usize = masked_index(tail, self.mask);
        let contiguous: usize = self.capacity - tail_index;
        if aligned_length > contiguous {
            let total_needed: u128 = contiguous as u128 + aligned_length as u128;
            if total_needed as i128 > available {
                return Err(RingBufferError::Full);
            }
            #[verifier::truncate]
            let advance: i64 = total_needed as i64;
            return Ok(
                Claim {
                    tail,
                    new_tail: tail.wrapping_add(advance),
                    pad_index: tail_index,
                    pad_length: contiguous,
                    index: 0,
                    aligned_length,
                },
            );
        }
        #[verifier::truncate]
        let advance: i64 = aligned_length as i64;
        Ok(
            Claim {
                tail,
                new_tail: tail.wrapping_add(advance),
                pad_index: 0,
                pad_length: 0,
                index: tail_index,
                aligned_length,
            },
        )
    }

    /// Writes a message.
    ///
    /// `msg_type` is to be zero or more: negative types are reserved. The ring is
    /// full when it has no room for the record and, where the record does not fit
    /// behind the tail, for the padding up to the end of the ring. So even an empty
    /// ring may refuse a large message.
    pub fn write(&self, buffer: &mut [u8], msg_type: i32, payload: &[u8]) -> (r: Result<
        (),
        RingBufferError,
    >)
        requires
            self.fits(old(buffer)@),
        ensures
            match self.claim_of(
                self.head(old(buffer)@),
                self.tail(old(buffer)@),
                payload@.len() as int,
            ) {
                Ok(claim) => r == Ok::<(), RingBufferError>(()) && final(buffer)@ == self.written(
                    old(buffer)@,
                    claim,
                    msg_type,
                    payload@,
                ),
                Err(e) => r == Err::<(), RingBufferError>(e) && final(buffer)@ == old(buffer)@,
            },
    {
        let head = self.head_position(buffer);
        let tail = self.tail_position(buffer);
        let claim = match self.claim(head, tail, payload.len()) {
            Ok(claim) => claim,
            Err(e) => {
                return Err(e);
            },
        };
        proof {
            position::lemma_valid_capacity(self.capacity as int);
            position::lemma_aligned(payload@.len() + RECORD_HEADER_LENGTH);
        }
        wire::write_i64(
            buffer,
            self.offset + self.capacity + TAIL_POSITION_OFFSET,
            claim.new_tail,
        );
        if claim.pad_length > 0 {
            let ghost before = buffer@;
            #[verifier::truncate]
            let pad: i32 = claim.pad_length as i32;
            wire::write_i32(buffer, self.offset + claim.pad_index, MSG_TYPE_PADDING);
            wire::write_i32(buffer, self.offset + claim.pad_index + 4, pad);
            assert(buffer@ =~= wire::splice(
                before,
                self.offset + claim.pad_index,
                padding_header(claim.pad_length as int),
            ));
        }
        let ghost before = buffer@;
        let start: usize = self.offset + claim.index;
        let record_length: usize = payload.len() + RECORD_HEADER_LENGTH;
        #[verifier::truncate]
        let length: i32 = record_length as i32;
        wire::write_zeros(buffer, start + record_length, claim.aligned_length - record_length);
        wire::write_bytes(buffer, start + RECORD_HEADER_LENGTH, payload);
        wire::write_i32(buffer, start, msg_type);
        wire::write_i32(buffer, start + 4, length);
        assert(buffer@ =~= wire::splice(before, start as int, record_bytes(msg_type, payload@)));
        Ok(())
    }

    /// Whether head and tail are record boundaries at most one ring apart.
    pub fn is_consistent(&self, buffer: &[u8]) -> (r: bool)
        requires
            self.fits(buffer@),
        ensures
            r == self.consistent(buffer@),
    {
        let head = self.head_position(buffer);
        let tail = self.tail_position(buffer);
        let used: i64 = tail.wrapping_sub(head);
        used >= 0 && used as i128 <= self.capacity as i128 && position::on_boundary(head)
            && position::on_boundary(tail)
    }

    /// Bytes in use.
    pub fn size(&self, buffer: &[u8]) -> (r: usize)
        requires
            self.fits(buffer@),
        ensures
            r == self.used(buffer@) as usize,
    {
        let head = self.head_position(buffer);
        let tail = self.tail_position(buffer);
        #[verifier::truncate]
        let r: usize = tail.wrapping_sub(head) as usize;
        r
    }

    /// Takes every committed message out of the ring, in the order in which they
    /// were written, and appends them to `messages`. Returns their number.
    ///
    /// Reading stops at a record that is not committed yet. A record whose length
    /// cannot be right counts as not committed, and nothing is read while head
    /// and tail are not record boundaries at most one ring apart.
    #[verifier::rlimit(40)]
    pub fn read(&self, buffer: &mut [u8], messages: &mut Vec<RingMessage>) -> (r: i32)
        requires
            self.fits(old(buffer)@),
            self.capacity as int / 32 <= i32::MAX,
        ensures
            self.consistent(old(buffer)@) ==> {
                &&& r == self.pending(old(buffer)@).len()
                &&& message_views(final(messages)@) == message_views(old(messages)@)
                    + self.pending(old(buffer)@)
                &&& final(buffer)@ == self.after_read(old(buffer)@)
            },
            !self.consistent(old(buffer)@) ==> {
                &&& r == 0
                &&& final(messages)@ == old(messages)@
                &&& final(buffer)@ == old(buffer)@
            },
    {
        if !self.is_consistent(buffer) {
            return 0;
        }
        let ghost s = buffer@;
        let ghost prior = message_views(messages@);
        let head = self.head_position(buffer);
        let tail = self.tail_position(buffer);
        let used: i64 = tail.wrapping_sub(head);
        let mut done: i64 = 0;
        let mut messages_read: i32 = 0;
        let mut blocked: bool = false;
        proof {
            position::lemma_valid_capacity(self.capacity as int);
            assert(prior + self.messages(s, head as int, used as int) =~= message_views(messages@)
                + self.messages(s, head as int, used as int));
        }
        while done < used && !blocked
            invariant
                self.fits(s),
                self.fits(buffer@),
                self.capacity % 32 == 0,
                self.capacity as int / 32 <= i32::MAX,
                0 <= done <= used <= self.capacity,
                head as int % 32 == 0,
                done as int % 32 == 0,
                used as int % 32 == 0,
                self.agree(s, buffer@, head + done, used - done),
                blocked ==> !self.readable(s, head + done, used - done),
                message_views(messages@) + self.messages(s, head + done, used - done) == prior
                    + self.messages(s, head as int, used as int),
                done + self.extent(s, head + done, used - done) == self.extent(
                    s,
                    head as int,
                    used as int,
                ),
                self.cleared(buffer@, s, head + done, used - done) == self.cleared(
                    s,
                    s,
                    head as int,
                    used as int,
                ),
                0 <= messages_read <= done as int / 32,
                messages_read == messages@.len() - prior.len(),
            decreases
                    used - done,
                    (if blocked {
                        0int
                    } else {
                        1int
                    }),
        {
            let ghost p = head + done;
            let ghost n = used - done;
            let index: usize = masked_index(head.wrapping_add(done), self.mask);
            proof {
                position::lemma_index_wraps(head, done as int, self.capacity as int);
                position::lemma_index_aligned(p, self.capacity as int);
                self.lemma_agree_header(s, buffer@, p, n);
            }
            let start: usize = self.offset + index;
            let msg_type: i32 = wire::read_i32(buffer, start);
            let length: i32 = wire::read_i32(buffer, start + 4);
            let least: i32 = if msg_type == MSG_TYPE_PADDING {
                1
            } else {
                8
            };
            if length < least || length as i128 > (self.capacity - index) as i128
                || length as i64 > used - done {
                proof {
                    position::lemma_aligned(length as int);
                }
                blocked = true;
            } else {
                let step: usize = align_record(length as usize);
                let ghost before = messages@;
                if msg_type != MSG_TYPE_PADDING {
                    let payload = wire::read_bytes(
                        buffer,
                        start + RECORD_HEADER_LENGTH,
                        length as usize - RECORD_HEADER_LENGTH,
                    );
                    messages.push(RingMessage { msg_type, payload });
                    messages_read += 1;
                    proof {
                        self.lemma_agree_payload(s, buffer@, p, n);
                        assert(message_views(messages@) =~= message_views(before).push(
                            (msg_type, payload@),
                        ));
                        assert(message_views(before) + self.messages(s, p, n) =~= message_views(
                            messages@,
                        ) + self.messages(s, p + step, n - step));
                    }
                }
                let ghost b = buffer@;
                wire::write_i32(buffer, start + 4, 0);
                proof {
                    self.lemma_agree_cleared(s, b, buffer@, p, n, step as int);
                }
                done = done + step as i64;
            }
        }
        if done != 0 {
            wire::write_i64(
                buffer,
                self.offset + self.capacity + HEAD_POSITION_OFFSET,
                head.wrapping_add(done),
            );
        }
        messages_read
    }

    /// Bytes from `p` on that lie in one stretch of the ring have successive
    /// indices.
    proof fn lemma_stretch(&self, p: int, n: int)
        requires
            self.wf(),
            0 <= n <= self.capacity - self.index(p),
        ensures
            forall|x: int| 0 <= x < n ==> #[trigger] self.index(p + x) == self.index(p) + x,
    {
        assert forall|x: int| 0 <= x < n implies #[trigger] self.index(p + x) == self.index(p)
            + x by {
            position::lemma_index_step(p, x, self.capacity as int);
        }
    }

    proof fn lemma_agree_header(&self, s: Seq<u8>, t: Seq<u8>, p: int, n: int)
        requires
            self.wf(),
            self.agree(s, t, p, n),
            n >= 8,
            self.index(p) + 8 <= self.capacity,
        ensures
            self.type_at(s, p) == self.type_at(t, p),
            self.length_at(s, p) == self.length_at(t, p),
    {
        self.lemma_stretch(p, 8);
        assert forall|x: int| 0 <= x < 8 implies s[self.offset + self.index(p) + x]
            == #[trigger] t[self.offset + self.index(p) + x] by {
            assert(self.index(p + x) == self.index(p) + x);
        }
        let o = self.offset + self.index(p);
        assert forall|i: int| o <= i < o + 8 implies s[i] == #[trigger] t[i] by {
            assert(s[o + (i - o)] == t[o + (i - o)]);
        }
        wire::lemma_u32_at_same(s, t, o);
        wire::lemma_u32_at_same(s, t, o + 4);
    }

    proof fn lemma_agree_payload(&self, s: Seq<u8>, t: Seq<u8>, p: int, n: int)
        requires
            self.fits(s),
            self.fits(t),
            self.agree(s, t, p, n),
            n >= 8,
            self.index(p) + 8 <= self.capacity,
            self.readable(s, p, n),
            self.type_at(s, p) != MSG_TYPE_PADDING,
        ensures
            self.payload_at(s, p) == self.payload_at(t, p),
    {
        self.lemma_agree_header(s, t, p, n);
        let len = self.length_at(s, p) as int;
        position::lemma_aligned(len);
        self.lemma_stretch(p, len);
        assert forall|x: int| 0 <= x < len implies s[self.offset + self.index(p) + x]
            == #[trigger] t[self.offset + self.index(p) + x] by {
            assert(self.index(p + x) == self.index(p) + x);
        }
        let o = self.offset + self.index(p);
        assert forall|i: int| 0 <= i < len - 8 implies self.payload_at(s, p)[i]
            == self.payload_at(t, p)[i] by {
            assert(s[o + (8 + i)] == t[o + (8 + i)]);
        }
        assert(self.payload_at(s, p) =~= self.payload_at(t, p));
    }

    proof fn lemma_agree_cleared(
        &self,
        s: Seq<u8>,
        b: Seq<u8>,
        t: Seq<u8>,
        p: int,
        n: int,
        step: int,
    )
        requires
            self.fits(s),
            self.fits(b),
            self.agree(s, b, p, n),
            n <= self.capacity,
            8 <= step <= n,
            self.index(p) + step <= self.capacity,
            t == wire::splice(b, self.offset + self.index(p) + 4, wire::i32_le(0)),
        ensures
            self.agree(s, t, p + step, n - step),
    {
        self.lemma_stretch(p, 8);
        assert forall|q: int| p + step <= q < p + n implies s[self.offset + #[trigger] self.index(
            q,
        )] == t[self.offset + self.index(q)] by {
            let i = self.index(q);
            let x = i - self.index(p);
            assert(0 <= i < self.capacity);
            if 0 <= x < 8 {
                assert(self.index(p + x) == i);
                position::lemma_index_distinct(p + x, q, self.capacity as int);
            }
        }
    }
}

/// Where `n` bytes of committed records stand in `s`, a region `t` that has the
/// same bytes there begins with the same messages.
proof fn lemma_messages_append(
    ring: MpscRingBuffer,
    s: Seq<u8>,
    t: Seq<u8>,
    p: int,
    n: int,
    more: int,
)
    requires
        ring.fits(s),
        ring.fits(t),
        p % 32 == 0,
        n % 32 == 0,
        0 <= n,
        0 <= more,
        ring.agree(s, t, p, n),
        ring.extent(s, p, n) == n,
    ensures
        ring.messages(t, p, n + more) == ring.messages(s, p, n) + ring.messages(t, p + n, more),
        ring.extent(t, p, n + more) == n + ring.extent(t, p + n, more),
    decreases n,
{
    if n == 0 {
        assert(ring.messages(t, p, n + more) =~= ring.messages(s, p, n) + ring.messages(
            t,
            p + n,
            more,
        ));
    } else {
        let step = ring.step_at(s, p);
        position::lemma_valid_capacity(ring.capacity as int);
        position::lemma_index_aligned(p, ring.capacity as int);
        ring.lemma_agree_header(s, t, p, n);
        position::lemma_aligned(ring.length_at(s, p) as int);
        assert(ring.agree(s, t, p + step, n - step));
        lemma_messages_append(ring, s, t, p + step, n - step, more);
        assert(ring.readable(t, p, n + more));
        if ring.type_at(s, p) != MSG_TYPE_PADDING {
            ring.lemma_agree_payload(s, t, p, n);
        }
        assert(ring.messages(t, p, n + more) =~= ring.messages(s, p, n) + ring.messages(
            t,
            p + n,
            more,
        ));
    }
}

/// A record just written reads back as its type and payload.
proof fn lemma_record_reads_back(
    ring: MpscRingBuffer,
    base: Seq<u8>,
    p: int,
    msg_type: i32,
    payload: Seq<u8>,
)
    requires
        ring.fits(base),
        payload.len() + RECORD_HEADER_LENGTH <= i32::MAX,
        ring.index(p) + position::aligned(payload.len() + RECORD_HEADER_LENGTH) <= ring.capacity,
    ensures
        ({
            let t = wire::splice(
                base,
                ring.offset + ring.index(p),
                record_bytes(msg_type, payload),
            );
            &&& ring.type_at(t, p) == msg_type
            &&& ring.length_at(t, p) == payload.len() + RECORD_HEADER_LENGTH
            &&& ring.payload_at(t, p) == payload
        }),
{
    let o = ring.offset + ring.index(p);
    let length = payload.len() + RECORD_HEADER_LENGTH;
    let record = record_bytes(msg_type, payload);
    let t = wire::splice(base, o, record);
    position::lemma_aligned(length as int);
    assert(record.len() == position::aligned(length as int));
    assert forall|i: int| 0 <= i < 4 implies t[o + i] == #[trigger] wire::i32_le(msg_type)[i] by {
        assert(t[o + i] == record[i]);
    }
    wire::lemma_i32_at_le(t, o, msg_type);
    assert forall|i: int| 0 <= i < 4 implies t[o + 4 + i] == #[trigger] wire::i32_le(
        length as i32,
    )[i] by {
        assert(t[o + 4 + i] == record[4 + i]);
    }
    wire::lemma_i32_at_le(t, o + 4, length as i32);
    assert forall|i: int| 0 <= i < payload.len() implies ring.payload_at(t, p)[i] == payload[i] by {
        assert(t[o + 8 + i] == record[8 + i]);
    }
    assert(ring.payload_at(t, p) =~= payload);
}

/// A padding header just written reads back as padding of its length.
proof fn lemma_padding_reads_back(ring: MpscRingBuffer, t: Seq<u8>, p: int, length: int)
    requires
        ring.fits(t),
        0 <= length <= i32::MAX,
        forall|i: int|
            0 <= i < 8 ==> t[ring.offset + ring.index(p) + i] == #[trigger] padding_header(
                length,
            )[i],
    ensures
        ring.type_at(t, p) == MSG_TYPE_PADDING,
        ring.length_at(t, p) == length,
{
    let o = ring.offset + ring.index(p);
    assert forall|i: int| 0 <= i < 4 implies t[o + i] == #[trigger] wire::i32_le(
        MSG_TYPE_PADDING,
    )[i] by {
        assert(t[o + i] == padding_header(length)[i]);
    }
    wire::lemma_i32_at_le(t, o, MSG_TYPE_PADDING);
    assert forall|i: int| 0 <= i < 4 implies t[o + 4 + i] == #[trigger] wire::i32_le(
        length as i32,
    )[i] by {
        assert(t[o + (4 + i)] == padding_header(length)[4 + i]);
    }
    wire::lemma_i32_at_le(t, o + 4, length as i32);
}

/// Writing moves the tail to where the claim says and leaves the head alone.
proof fn lemma_written_positions(
    ring: MpscRingBuffer,
    s: Seq<u8>,
    claim: Claim,
    msg_type: i32,
    payload: Seq<u8>,
)
    requires
        ring.fits(s),
        ring.claim_of(ring.head(s), ring.tail(s), payload.len() as int) == Ok::<
            Claim,
            RingBufferError,
        >(claim),
        ring.tail(s) as int % 32 == 0,
    ensures
        ring.head(ring.written(s, claim, msg_type, payload)) == ring.head(s),
        ring.tail(ring.written(s, claim, msg_type, payload)) == claim.new_tail,
        ring.written(s, claim, msg_type, payload).len() == s.len(),
{
    let t = ring.written(s, claim, msg_type, payload);
    let h = ring.offset + ring.capacity + HEAD_POSITION_OFFSET;
    let o = ring.offset + ring.capacity + TAIL_POSITION_OFFSET;
    position::lemma_valid_capacity(ring.capacity as int);
    position::lemma_aligned(payload.len() + RECORD_HEADER_LENGTH);
    position::lemma_index_aligned(ring.tail(s) as int, ring.capacity as int);
    assert(record_bytes(msg_type, payload).len() == position::aligned(
        payload.len() + RECORD_HEADER_LENGTH,
    ));
    assert forall|i: int| 0 <= i < 8 implies t[o + i] == #[trigger] wire::i64_le(
        claim.new_tail,
    )[i] by {}
    wire::lemma_i64_at_le(t, o, claim.new_tail);
    wire::lemma_i64_le_at(s, h);
    assert forall|i: int| 0 <= i < 8 implies t[h + i] == #[trigger] wire::i64_le(ring.head(s))[i] by {
        assert(t[h + i] == s[h + i]);
    }
    wire::lemma_i64_at_le(t, h, ring.head(s));
}

/// Writing touches no byte between head and tail.
proof fn lemma_written_agrees(
    ring: MpscRingBuffer,
    s: Seq<u8>,
    claim: Claim,
    msg_type: i32,
    payload: Seq<u8>,
)
    requires
        ring.fits(s),
        ring.consistent(s),
        ring.claim_of(ring.head(s), ring.tail(s), payload.len() as int) == Ok::<
            Claim,
            RingBufferError,
        >(claim),
    ensures
        ring.agree(
            s,
            ring.written(s, claim, msg_type, payload),
            ring.head(s) as int,
            ring.used(s),
        ),
{
    let t = ring.written(s, claim, msg_type, payload);
    let head = ring.head(s) as int;
    let end = head + ring.used(s);
    let capacity = ring.capacity as int;
    let need = position::aligned(payload.len() + RECORD_HEADER_LENGTH);
    position::lemma_valid_capacity(capacity);
    position::lemma_aligned(payload.len() + RECORD_HEADER_LENGTH);
    position::lemma_index_wraps(ring.head(s), ring.used(s), capacity);
    assert(ring.head(s).wrapping_add(ring.used(s) as i64) == ring.tail(s));
    position::lemma_index_aligned(ring.tail(s) as int, capacity);
    let room = capacity - ring.index(end);
    assert(record_bytes(msg_type, payload).len() == need);
    assert forall|q: int| head <= q < head + ring.used(s) implies s[ring.offset
        + #[trigger] ring.index(q)] == t[ring.offset + ring.index(q)] by {
        let k = ring.index(q);
        assert(0 <= k < capacity);
        if claim.pad_length > 0 {
            // The padding takes the rest of the ring, the record its front.
            if k >= ring.index(end) {
                position::lemma_index_step(end, k - ring.index(end), capacity);
                position::lemma_index_distinct(q, end + (k - ring.index(end)), capacity);
            } else if k < need {
                position::lemma_index_step(end, room, capacity);
                position::lemma_index_step(end + room, k, capacity);
                position::lemma_index_distinct(q, end + room + k, capacity);
            }
        } else if ring.index(end) <= k < ring.index(end) + need {
            position::lemma_index_step(end, k - ring.index(end), capacity);
            position::lemma_index_distinct(q, end + (k - ring.index(end)), capacity);
        }
    }
}

/// Behind the old tail stands what was written: the record alone.
proof fn lemma_written_record(
    ring: MpscRingBuffer,
    s: Seq<u8>,
    claim: Claim,
    msg_type: i32,
    payload: Seq<u8>,
    end: int,
)
    requires
        ring.fits(s),
        ring.capacity <= i64::MAX,
        ring.storable(s, payload.len() as int),
        msg_type != MSG_TYPE_PADDING,
        ring.claim_of(ring.head(s), ring.tail(s), payload.len() as int) == Ok::<
            Claim,
            RingBufferError,
        >(claim),
        claim.pad_length == 0,
        ring.index(end) == ring.index(ring.tail(s) as int),
    ensures
        ({
            let t = ring.written(s, claim, msg_type, payload);
            let more = claim.aligned_length as int;
            &&& ring.messages(t, end, more) == seq![(msg_type, payload)]
            &&& ring.extent(t, end, more) == more
        }),
{
    let t = ring.written(s, claim, msg_type, payload);
    let more = claim.aligned_length as int;
    position::lemma_valid_capacity(ring.capacity as int);
    position::lemma_aligned(payload.len() + RECORD_HEADER_LENGTH);
    let moved = wire::splice(
        s,
        ring.offset + ring.capacity + TAIL_POSITION_OFFSET,
        wire::i64_le(claim.new_tail),
    );
    lemma_record_reads_back(ring, moved, end, msg_type, payload);
    assert(ring.readable(t, end, more));
    reveal_with_fuel(MpscRingBuffer::messages, 2);
    reveal_with_fuel(MpscRingBuffer::extent, 2);
    assert(ring.messages(t, end, more) =~= seq![(msg_type, payload)]);
}

/// Behind the old tail stands what was written: padding and the record.
proof fn lemma_written_wrapped(
    ring: MpscRingBuffer,
    s: Seq<u8>,
    claim: Claim,
    msg_type: i32,
    payload: Seq<u8>,
    end: int,
)
    requires
        ring.fits(s),
        ring.consistent(s),
        ring.capacity <= i64::MAX,
        ring.storable(s, payload.len() as int),
        msg_type != MSG_TYPE_PADDING,
        ring.claim_of(ring.head(s), ring.tail(s), payload.len() as int) == Ok::<
            Claim,
            RingBufferError,
        >(claim),
        claim.pad_length > 0,
        end % 32 == 0,
        ring.index(end) == ring.index(ring.tail(s) as int),
    ensures
        ({
            let t = ring.written(s, claim, msg_type, payload);
            let more = claim.pad_length + claim.aligned_length;
            &&& ring.messages(t, end, more) == seq![(msg_type, payload)]
            &&& ring.extent(t, end, more) == more
        }),
{
    let t = ring.written(s, claim, msg_type, payload);
    let capacity = ring.capacity as int;
    let need = claim.aligned_length as int;
    let room = claim.pad_length as int;
    let more = room + need;
    position::lemma_valid_capacity(capacity);
    position::lemma_aligned(payload.len() + RECORD_HEADER_LENGTH);
    position::lemma_index_aligned(end, capacity);
    let moved = wire::splice(
        s,
        ring.offset + ring.capacity + TAIL_POSITION_OFFSET,
        wire::i64_le(claim.new_tail),
    );
    let padded = wire::splice(moved, ring.offset + claim.pad_index, padding_header(room));
    position::lemma_index_step(end, room, capacity);
    assert(ring.index(end + room) == 0);
    assert(t == wire::splice(
        padded,
        ring.offset + ring.index(end + room),
        record_bytes(msg_type, payload),
    ));
    lemma_record_reads_back(ring, padded, end + room, msg_type, payload);
    let o = ring.offset + ring.index(end);
    assert(record_bytes(msg_type, payload).len() == need);
    assert(need <= ring.index(end));
    assert forall|i: int| 0 <= i < 8 implies t[o + i] == #[trigger] padding_header(room)[i] by {
        assert(t[o + i] == padded[o + i]);
    }
    lemma_padding_reads_back(ring, t, end, room);
    position::lemma_aligned(room);
    assert(ring.step_at(t, end) == room);
    assert(ring.readable(t, end, more));
    assert(ring.readable(t, end + room, need));
    assert(ring.step_at(t, end + room) == need);
    assert(ring.messages(t, end + room + need, 0) =~= Seq::<(i32, Seq<u8>)>::empty());
    assert(ring.messages(t, end + room, need) =~= seq![(msg_type, payload)]);
    assert(ring.extent(t, end + room + need, 0) == 0);
    assert(ring.extent(t, end + room, need) == need);
    assert(ring.messages(t, end, more) == ring.messages(t, end + room, more - room));
    assert(ring.extent(t, end, more) == room + ring.extent(t, end + room, more - room));
}

/// A claim moves the tail by what it takes, on to a record boundary at most one
/// ring ahead of the head.
proof fn lemma_claim_positions(ring: MpscRingBuffer, head: i64, tail: i64, n: int, claim: Claim)
    requires
        ring.wf(),
        0 <= n,
        ring.capacity <= i64::MAX,
        0 <= tail.wrapping_sub(head) <= ring.capacity,
        tail as int % 32 == 0,
        ring.claim_of(head, tail, n) == Ok::<Claim, RingBufferError>(claim),
    ensures
        claim.new_tail.wrapping_sub(head) == tail.wrapping_sub(head) + claim.pad_length
            + claim.aligned_length,
        tail.wrapping_sub(head) + claim.pad_length + claim.aligned_length <= ring.capacity,
        claim.new_tail as int % 32 == 0,
{
    position::lemma_valid_capacity(ring.capacity as int);
    position::lemma_aligned(n + RECORD_HEADER_LENGTH);
    position::lemma_index_aligned(tail as int, ring.capacity as int);
    position::lemma_moved_position(head, tail, claim.pad_length + claim.aligned_length);
}

/// Where `t` keeps what waits in `s` and holds one message more behind it, that
/// message comes last.
proof fn lemma_one_more(
    ring: MpscRingBuffer,
    s: Seq<u8>,
    t: Seq<u8>,
    more: int,
    message: (i32, Seq<u8>),
)
    requires
        ring.fits(s),
        ring.fits(t),
        ring.committed(s),
        ring.head(t) == ring.head(s),
        ring.used(t) == ring.used(s) + more,
        ring.used(t) <= ring.capacity,
        ring.tail(t) as int % 32 == 0,
        0 <= more,
        ring.agree(s, t, ring.head(s) as int, ring.used(s)),
        ring.messages(t, ring.head(s) + ring.used(s), more) == seq![message],
        ring.extent(t, ring.head(s) + ring.used(s), more) == more,
    ensures
        ring.committed(t),
        ring.pending(t) == ring.pending(s).push(message),
{
    assert(ring.used(s) % 32 == 0) by {
        let (h, n) = (ring.head(s), ring.tail(s));
        assert(n.wrapping_sub(h) as int % 32 == 0);
    }
    lemma_messages_append(ring, s, t, ring.head(s) as int, ring.used(s), more);
    assert(ring.pending(s) + seq![message] =~= ring.pending(s).push(message));
}

/// The index of the tail is that of the head and the bytes in use.
proof fn lemma_tail_index(ring: MpscRingBuffer, s: Seq<u8>)
    requires
        ring.wf(),
        ring.consistent(s),
    ensures
        ring.index(ring.head(s) + ring.used(s)) == ring.index(ring.tail(s) as int),
        (ring.head(s) + ring.used(s)) % 32 == 0,
{
    position::lemma_index_wraps(ring.head(s), ring.used(s), ring.capacity as int);
    assert(ring.head(s).wrapping_add(ring.used(s) as i64) == ring.tail(s));
}

/// A message written to a ring whose records are all committed comes after
/// those that wait already, and all records stay committed.
pub proof fn law_write_appends(
    ring: MpscRingBuffer,
    s: Seq<u8>,
    claim: Claim,
    msg_type: i32,
    payload: Seq<u8>,
)
    requires
        ring.fits(s),
        ring.capacity <= i64::MAX,
        ring.committed(s),
        ring.storable(s, payload.len() as int),
        msg_type != MSG_TYPE_PADDING,
        ring.claim_of(ring.head(s), ring.tail(s), payload.len() as int) == Ok::<
            Claim,
            RingBufferError,
        >(claim),
    ensures
        ring.committed(ring.written(s, claim, msg_type, payload)),
        ring.pending(ring.written(s, claim, msg_type, payload)) == ring.pending(s).push(
            (msg_type, payload),
        ),
{
    let t = ring.written(s, claim, msg_type, payload);
    let end = ring.head(s) + ring.used(s);
    lemma_tail_index(ring, s);
    lemma_written_positions(ring, s, claim, msg_type, payload);
    lemma_written_agrees(ring, s, claim, msg_type, payload);
    lemma_claim_positions(ring, ring.head(s), ring.tail(s), payload.len() as int, claim);
    if claim.pad_length > 0 {
        lemma_written_wrapped(ring, s, claim, msg_type, payload, end);
    } else {
        lemma_written_record(ring, s, claim, msg_type, payload, end);
    }
    lemma_one_more(ring, s, t, claim.pad_length + claim.aligned_length, (msg_type, payload));
}

/// A write changes nothing, or it appends its message to those that wait. Either
/// way all records stay committed, and the bytes in use are whole records that
/// fit into the ring.
#[verifier::rlimit(40)]
#[verifier::spinoff_prover]
pub proof fn law_write_is_all_or_nothing(
    ring: MpscRingBuffer,
    s: Seq<u8>,
    msg_type: i32,
    payload: Seq<u8>,
)
    requires
        ring.fits(s),
        ring.capacity <= i64::MAX,
        ring.committed(s),
        ring.storable(s, payload.len() as int),
        msg_type != MSG_TYPE_PADDING,
    ensures
        ({
            let t = ring.sent(s, msg_type, payload);
            let claim = ring.claim_of(ring.head(s), ring.tail(s), payload.len() as int);
            &&& ring.fits(t)
            &&& ring.committed(t)
            &&& 0 <= ring.used(t) <= ring.capacity
            &&& ring.used(t) % 32 == 0
            &&& claim is Err ==> t == s
            &&& claim is Ok ==> ring.pending(t) == ring.pending(s).push((msg_type, payload))
            &&& claim == Err::<Claim, RingBufferError>(RingBufferError::MessageTooLarge)
                <==> payload.len() + RECORD_HEADER_LENGTH > ring.capacity
        }),
{
    let t = ring.sent(s, msg_type, payload);
    match ring.claim_of(ring.head(s), ring.tail(s), payload.len() as int) {
        Ok(claim) => {
            lemma_written_positions(ring, s, claim, msg_type, payload);
            law_write_appends(ring, s, claim, msg_type, payload);
        },
        Err(_) => {},
    }
    assert(ring.used(t) % 32 == 0) by {
        let (head, tail) = (ring.head(t), ring.tail(t));
        assert(tail.wrapping_sub(head) as int % 32 == 0);
    }
}

/// One more message of a sequence comes after those before it.
pub proof fn lemma_one_more_of(
    earlier: Seq<(i32, Seq<u8>)>,
    messages: Seq<(i32, Seq<u8>)>,
    k: int,
)
    requires
        0 < k <= messages.len(),
    ensures
        earlier + messages.subrange(0, k) == (earlier + messages.subrange(0, k - 1)).push(
            messages[k - 1],
        ),
{
    assert(earlier + messages.subrange(0, k) =~= (earlier + messages.subrange(0, k - 1)).push(
        messages[k - 1],
    ));
}

/// A message that the ring takes waits behind those that waited already.
proof fn lemma_taken_message(ring: MpscRingBuffer, s: Seq<u8>, message: (i32, Seq<u8>))
    requires
        ring.fits(s),
        ring.capacity <= i64::MAX,
        ring.committed(s),
        ring.takes(s, message),
    ensures
        ring.fits(ring.sent(s, message.0, message.1)),
        ring.committed(ring.sent(s, message.0, message.1)),
        ring.pending(ring.sent(s, message.0, message.1)) == ring.pending(s).push(message),
{
    law_write_is_all_or_nothing(ring, s, message.0, message.1);
}

/// Messages that were written wait in the order of their writing, behind those
/// that waited already, with type and payload unchanged.
#[verifier::rlimit(40)]
#[verifier::spinoff_prover]
pub proof fn law_writes_wait_in_order(
    ring: MpscRingBuffer,
    s: Seq<u8>,
    messages: Seq<(i32, Seq<u8>)>,
    k: int,
)
    requires
        ring.fits(s),
        ring.capacity <= i64::MAX,
        ring.committed(s),
        0 <= k <= messages.len(),
        forall|i: int|
            0 <= i < k ==> ring.takes(ring.sent_all(s, messages, i), #[trigger] messages[i]),
    ensures
        ring.fits(ring.sent_all(s, messages, k)),
        ring.committed(ring.sent_all(s, messages, k)),
        ring.pending(ring.sent_all(s, messages, k)) == ring.pending(s) + messages.subrange(0, k),
    decreases k,
{
    if k == 0 {
        assert(ring.pending(s) + messages.subrange(0, 0) =~= ring.pending(s));
    } else {
        law_writes_wait_in_order(ring, s, messages, k - 1);
        let before = ring.sent_all(s, messages, k - 1);
        let message = messages[k - 1];
        assert(ring.takes(before, message));
        lemma_taken_message(ring, before, message);
        lemma_one_more_of(ring.pending(s), messages, k);
    }
}

/// Clearing record lengths leaves the trailer alone.
proof fn lemma_cleared_outside(ring: MpscRingBuffer, t: Seq<u8>, s: Seq<u8>, p: int, n: int)
    requires
        ring.fits(s),
        p % 32 == 0,
        n % 32 == 0,
    ensures
        ring.cleared(t, s, p, n).len() == t.len(),
        forall|k: int|
            ring.offset + ring.capacity <= k < t.len() ==> #[trigger] ring.cleared(t, s, p, n)[k]
                == t[k],
    decreases n,
{
    if n > 0 && ring.readable(s, p, n) {
        let step = ring.step_at(s, p);
        position::lemma_valid_capacity(ring.capacity as int);
        position::lemma_index_aligned(p, ring.capacity as int);
        position::lemma_aligned(ring.length_at(s, p) as int);
        let u = wire::splice(t, ring.offset + ring.index(p) + 4, wire::i32_le(0));
        lemma_cleared_outside(ring, u, s, p + step, n - step);
    }
}

/// Reading does not change the length of the region.
pub proof fn lemma_after_read_length(ring: MpscRingBuffer, s: Seq<u8>)
    requires
        ring.fits(s),
        ring.consistent(s),
    ensures
        ring.after_read(s).len() == s.len(),
{
    lemma_cleared_outside(ring, s, s, ring.head(s) as int, ring.used(s));
}

/// Reading a ring whose records are all committed leaves it empty.
pub proof fn law_read_drains(ring: MpscRingBuffer, s: Seq<u8>)
    requires
        ring.fits(s),
        ring.committed(s),
    ensures
        ring.committed(ring.after_read(s)),
        ring.used(ring.after_read(s)) == 0,
        ring.pending(ring.after_read(s)) == Seq::<(i32, Seq<u8>)>::empty(),
        ring.tail(ring.after_read(s)) == ring.tail(s),
{
    let head = ring.head(s);
    let used = ring.used(s);
    let t = ring.after_read(s);
    if used != 0 {
        let c = ring.cleared(s, s, head as int, used);
        lemma_cleared_outside(ring, s, s, head as int, used);
        let h = ring.offset + ring.capacity + HEAD_POSITION_OFFSET;
        let o = ring.offset + ring.capacity + TAIL_POSITION_OFFSET;
        let new_head = head.wrapping_add(used as i64);
        assert forall|i: int| 0 <= i < 8 implies t[h + i] == #[trigger] wire::i64_le(new_head)[i] by {}
        wire::lemma_i64_at_le(t, h, new_head);
        wire::lemma_i64_le_at(s, o);
        assert forall|i: int| 0 <= i < 8 implies t[o + i] == #[trigger] wire::i64_le(
            ring.tail(s),
        )[i] by {
            assert(t[o + i] == c[o + i]);
            assert(c[o + i] == s[o + i]);
        }
        wire::lemma_i64_at_le(t, o, ring.tail(s));
        assert(new_head == ring.tail(s));
    }
}

/// A read gives back exactly the messages that were written since the ring was
/// empty, in order, and leaves the ring empty.
pub proof fn law_read_gives_back_writes(
    ring: MpscRingBuffer,
    s: Seq<u8>,
    messages: Seq<(i32, Seq<u8>)>,
)
    requires
        ring.fits(s),
        ring.capacity <= i64::MAX,
        ring.committed(s),
        ring.used(s) == 0,
        forall|i: int|
            0 <= i < messages.len() ==> ring.takes(
                ring.sent_all(s, messages, i),
                #[trigger] messages[i],
            ),
    ensures
        ({
            let t = ring.sent_all(s, messages, messages.len() as int);
            &&& ring.consistent(t)
            &&& ring.pending(t) == messages
            &&& ring.used(ring.after_read(t)) == 0
            &&& ring.pending(ring.after_read(t)) == Seq::<(i32, Seq<u8>)>::empty()
        }),
{
    law_writes_wait_in_order(ring, s, messages, messages.len() as int);
    law_read_drains(ring, ring.sent_all(s, messages, messages.len() as int));
    assert(ring.pending(s) + messages.subrange(0, messages.len() as int) =~= messages);
}

/// A ring over zeros is empty.
pub proof fn law_new_ring_is_empty(ring: MpscRingBuffer, s: Seq<u8>)
    requires
        ring.fits(s),
        forall|k: int|
            ring.offset <= k < ring.offset + ring.capacity + TRAILER_LENGTH ==> s[k] == 0,
    ensures
        ring.committed(s),
        ring.used(s) == 0,
        ring.pending(s) == Seq::<(i32, Seq<u8>)>::empty(),
{
    let h = ring.offset + ring.capacity + HEAD_POSITION_OFFSET;
    let o = ring.offset + ring.capacity + TAIL_POSITION_OFFSET;
    assert forall|i: int| 0 <= i < 8 implies s[h + i] == #[trigger] wire::i64_le(0)[i] by {
        wire::lemma_i64_le_zero();
    }
    wire::lemma_i64_at_le(s, h, 0);
    assert forall|i: int| 0 <= i < 8 implies s[o + i] == #[trigger] wire::i64_le(0)[i] by {
        wire::lemma_i64_le_zero();
    }
    wire::lemma_i64_at_le(s, o, 0);
}

/// Makes a ring of the given capacity over a region of its own, all zeros.
pub fn new_heap_ring_buffer(capacity: usize) -> (r: Result<
    (Vec<u8>, MpscRingBuffer),
    RingBufferError,
>)
    ensures
        match r {
            Ok((buffer, ring)) => {
                &&& position::valid_capacity(capacity as int)
                &&& buffer@ == wire::zeros((capacity + TRAILER_LENGTH) as nat)
                &&& ring.fits(buffer@)
                &&& ring.offset == 0
                &&& ring.capacity == capacity
            },
            Err(e) => !position::valid_capacity(capacity as int) && e
                == RingBufferError::InvalidCapacity,
        },
{
    if capacity < RECORD_ALIGNMENT || !capacity.is_power_of_two() {
        return Err(RingBufferError::InvalidCapacity);
    }
    proof {
        position::lemma_valid_capacity(capacity as int);
        position::lemma_capacity_with_trailer(capacity);
    }
    let buffer: Vec<u8> = vec![0u8; required_buffer_size(capacity)];
    assert(buffer@ =~= wire::zeros((capacity + TRAILER_LENGTH) as nat));
    match MpscRingBuffer::new(buffer.as_slice(), 0, capacity) {
        Ok(ring) => Ok((buffer, ring)),
        Err(e) => Err(e),
    }
}

/// A ring is made exactly where its capacity is a power of two of 32 bytes or
/// more and the region holds it with the 128 bytes behind it.
pub proof fn law_ring_is_made_where_it_fits(
    region: &[u8],
    offset: usize,
    capacity: usize,
    r: Result<MpscRingBuffer, RingBufferError>,
)
    requires
        call_ensures(MpscRingBuffer::new, (region, offset, capacity), r),
    ensures
        !(capacity >= 32 && power2::is_pow2(capacity as int)) <==> r == Err::<
            MpscRingBuffer,
            RingBufferError,
        >(RingBufferError::InvalidCapacity),
        capacity >= 32 && power2::is_pow2(capacity as int) && offset + capacity + 128
            > region@.len() <==> r == Err::<MpscRingBuffer, RingBufferError>(
            RingBufferError::BufferTooSmall,
        ),
        r matches Ok(ring) ==> ring == (MpscRingBuffer {
            offset,
            capacity,
            mask: (capacity - 1) as usize,
            max_record_length: (capacity - 8) as usize,
        }),
{
}

/// A ring of its own has its whole region at zero, is empty, and can be made
/// exactly where its capacity is a power of two of 32 bytes or more.
pub proof fn law_heap_ring_starts_empty(
    capacity: usize,
    r: Result<(Vec<u8>, MpscRingBuffer), RingBufferError>,
)
    requires
        call_ensures(new_heap_ring_buffer, (capacity,), r),
    ensures
        r is Ok <==> capacity >= 32 && power2::is_pow2(capacity as int),
        r matches Err(e) ==> e == RingBufferError::InvalidCapacity,
        r matches Ok((region, ring)) ==> {
            &&& region@.len() == capacity + 128
            &&& forall|k: int| 0 <= k < region@.len() ==> #[trigger] region@[k] == 0
            &&& ring.offset == 0
            &&& ring.capacity == capacity
            &&& ring.pending(region@) == Seq::<(i32, Seq<u8>)>::empty()
        },
{
    if let Ok((region, ring)) = r {
        law_new_ring_is_empty(ring, region@);
    }
}

/// A ring takes 128 bytes more than its data, and a message at most all of the
/// data but the 8 bytes of a header.
pub proof fn law_sizes_of_a_ring(
    ring: &MpscRingBuffer,
    capacity: usize,
    size: usize,
    longest: usize,
    data: usize,
)
    requires
        ring.wf(),
        call_ensures(required_buffer_size, (capacity,), size),
        call_ensures(MpscRingBuffer::max_message_length, (ring,), longest),
        call_ensures(MpscRingBuffer::capacity, (ring,), data),
    ensures
        size == capacity + 128,
        data == ring.capacity,
        longest == ring.capacity - 8,
{
}

/// The positions stand behind the data, the consumer's first and the producers'
/// 64 bytes further, and the bytes in use are those between them.
pub proof fn law_positions_stand_behind_the_data(
    ring: &MpscRingBuffer,
    region: &[u8],
    head: i64,
    tail: i64,
    size: usize,
)
    requires
        ring.fits(region@),
        call_ensures(MpscRingBuffer::head_position, (ring, region), head),
        call_ensures(MpscRingBuffer::tail_position, (ring, region), tail),
        call_ensures(MpscRingBuffer::size, (ring, region), size),
    ensures
        head == wire::i64_at(region@, ring.offset + ring.capacity),
        tail == wire::i64_at(region@, ring.offset + ring.capacity + 64),
        0 <= tail - head <= usize::MAX && tail - head <= i64::MAX ==> size == tail - head,
{
}

/// A message goes in exactly where its record, the payload and 8 bytes rounded up
/// to a multiple of 32, fits into the free bytes; where it does not fit before
/// the end of the ring, the rest of the ring has to be free as well. A message
/// that no ring of this capacity could hold is refused as too large, another
/// because the ring is full, and either leaves the region alone.
pub proof fn law_message_goes_in_where_there_is_room(
    ring: &MpscRingBuffer,
    before: Seq<u8>,
    after: Seq<u8>,
    msg_type: i32,
    payload: &[u8],
    need: int,
    r: Result<(), RingBufferError>,
)
    requires
        ring.fits(before),
        exists|region: &mut [u8]|
            (*region)@ == before && (*final(region))@ == after && #[trigger] call_ensures(
                MpscRingBuffer::write,
                (ring, region, msg_type, payload),
                r,
            ),
        need % 32 == 0,
        payload@.len() + 8 <= need < payload@.len() + 8 + 32,
    ensures
        ({
            let head = wire::i64_at(before, ring.offset + ring.capacity);
            let tail = wire::i64_at(before, ring.offset + ring.capacity + 64);
            let free = ring.capacity - tail.wrapping_sub(head);
            let room = ring.capacity - tail as int % ring.capacity as int;
            &&& payload@.len() + 8 > ring.capacity <==> r == Err::<(), RingBufferError>(
                RingBufferError::MessageTooLarge,
            )
            &&& r is Ok <==> payload@.len() + 8 <= ring.capacity && need <= free && (need <= room
                || room + need <= free)
            &&& r is Err && payload@.len() + 8 <= ring.capacity ==> r == Err::<
                (),
                RingBufferError,
            >(RingBufferError::Full)
            &&& r is Err ==> after == before
        }),
{
    position::lemma_aligned(payload@.len() as int + 8);
    assert(need == position::aligned(payload@.len() as int + 8));
}

/// A message that goes in stands where the producers' position was, or at the
/// front of the ring behind a padding record where it would have run over the
/// end: type, length with the 8 bytes of the header, payload. The position moves
/// on by the record and the padding, and no other byte changes but those that
/// fill the record up.
#[verifier::rlimit(40)]
#[verifier::spinoff_prover]
pub proof fn law_written_message_stands_at_the_tail(
    ring: &MpscRingBuffer,
    before: Seq<u8>,
    after: Seq<u8>,
    msg_type: i32,
    payload: &[u8],
    need: int,
)
    requires
        ring.fits(before),
        ring.capacity <= i32::MAX,
        wire::i64_at(before, ring.offset + ring.capacity + 64) as int % 32 == 0,
        wire::i64_at(before, ring.offset + ring.capacity + 64).wrapping_sub(
            wire::i64_at(before, ring.offset + ring.capacity),
        ) >= 0,
        exists|region: &mut [u8]|
            (*region)@ == before && (*final(region))@ == after && #[trigger] call_ensures(
                MpscRingBuffer::write,
                (ring, region, msg_type, payload),
                Ok(()),
            ),
        need % 32 == 0,
        payload@.len() + 8 <= need < payload@.len() + 8 + 32,
    ensures
        ({
            let tail = wire::i64_at(before, ring.offset + ring.capacity + 64);
            let index = tail as int % ring.capacity as int;
            let room = ring.capacity - index;
            let start = ring.offset + if need <= room {
                index
            } else {
                0
            };
            let moved = if need <= room {
                need
            } else {
                room + need
            };
            &&& after.len() == before.len()
            &&& wire::i32_at(after, start) == msg_type
            &&& wire::i32_at(after, start + 4) == payload@.len() + 8
            &&& forall|k: int|
                0 <= k < payload@.len() ==> #[trigger] after[start + 8 + k] == payload@[k]
            &&& need > room ==> wire::i32_at(after, ring.offset + index) == -1 && wire::i32_at(
                after,
                ring.offset + index + 4,
            ) == room
            &&& wire::i64_at(after, ring.offset + ring.capacity + 64) == tail.wrapping_add(
                moved as i64,
            )
            &&& wire::i64_at(after, ring.offset + ring.capacity) == wire::i64_at(
                before,
                ring.offset + ring.capacity,
            )
            &&& forall|k: int|
                0 <= k < before.len() && !(start <= k < start + need) && !(need > room
                    && ring.offset + index <= k < ring.offset + index + 8) && !(ring.offset
                    + ring.capacity + 64 <= k < ring.offset + ring.capacity + 72)
                    ==> #[trigger] after[k] == before[k]
        }),
{
    position::lemma_aligned(payload@.len() as int + 8);
    assert(need == position::aligned(payload@.len() as int + 8));
    position::lemma_valid_capacity(ring.capacity as int);
    position::lemma_index_aligned(ring.tail(before) as int, ring.capacity as int);
    let claim = ring.claim_of(
        ring.head(before),
        ring.tail(before),
        payload@.len() as int,
    )->Ok_0;
    lemma_written_positions(*ring, before, claim, msg_type, payload@);
    let start = ring.offset + claim.index;
    let record = record_bytes(msg_type, payload@);
    assert(record.len() == need);
    assert forall|k: int| 0 <= k < need implies #[trigger] record[k] == after[start + k] by {}
    assert forall|i: int| 0 <= i < 4 implies after[start + i] == #[trigger] wire::i32_le(
        msg_type,
    )[i] by {
        assert(record[i] == wire::i32_le(msg_type)[i]);
    }
    wire::lemma_i32_at_le(after, start, msg_type);
    let length = (payload@.len() + 8) as i32;
    assert forall|i: int| 0 <= i < 4 implies after[start + 4 + i] == #[trigger] wire::i32_le(
        length,
    )[i] by {
        assert(record[4 + i] == wire::i32_le(length)[i]);
    }
    wire::lemma_i32_at_le(after, start + 4, length);
    assert forall|k: int| 0 <= k < payload@.len() implies #[trigger] after[start + 8 + k]
        == payload@[k] by {
        assert(record[8 + k] == payload@[k]);
    }
    if claim.pad_length > 0 {
        let pad = ring.offset + claim.pad_index;
        let header = padding_header(claim.pad_length as int);
        assert forall|i: int| 0 <= i < 4 implies after[pad + i] == #[trigger] wire::i32_le(
            MSG_TYPE_PADDING,
        )[i] by {
            assert(header[i] == wire::i32_le(MSG_TYPE_PADDING)[i]);
        }
        wire::lemma_i32_at_le(after, pad, MSG_TYPE_PADDING);
        let room = claim.pad_length as i32;
        assert forall|i: int| 0 <= i < 4 implies after[pad + 4 + i] == #[trigger] wire::i32_le(
            room,
        )[i] by {
            assert(header[4 + i] == wire::i32_le(room)[i]);
        }
        wire::lemma_i32_at_le(after, pad + 4, room);
    }
}

/// A message that went in comes out of the next read, after those that waited
/// before it, and that read leaves nothing behind.
pub proof fn law_written_message_is_read(
    ring: &MpscRingBuffer,
    before: Seq<u8>,
    between: Seq<u8>,
    after: Seq<u8>,
    msg_type: i32,
    payload: &[u8],
    earlier: Seq<RingMessage>,
    taken: Seq<RingMessage>,
    r: i32,
)
    requires
        ring.fits(before),
        ring.capacity <= i32::MAX,
        ring.committed(before),
        msg_type != -1,
        exists|region: &mut [u8]|
            (*region)@ == before && (*final(region))@ == between && #[trigger] call_ensures(
                MpscRingBuffer::write,
                (ring, region, msg_type, payload),
                Ok(()),
            ),
        exists|region: &mut [u8], messages: &mut Vec<RingMessage>|
            (*region)@ == between && (*final(region))@ == after && (*messages)@ == earlier
                && (*final(messages))@ == taken && #[trigger] call_ensures(
                MpscRingBuffer::read,
                (ring, region, messages),
                r,
            ),
    ensures
        message_views(taken) == message_views(earlier) + ring.pending(before).push(
            (msg_type, payload@),
        ),
        r == ring.pending(before).len() + 1,
        ring.pending(after) == Seq::<(i32, Seq<u8>)>::empty(),
        ring.committed(after),
        wire::i64_at(after, ring.offset + ring.capacity) == wire::i64_at(
            between,
            ring.offset + ring.capacity + 64,
        ),
        wire::i64_at(after, ring.offset + ring.capacity + 64) == wire::i64_at(
            between,
            ring.offset + ring.capacity + 64,
        ),
{
    let n = payload@.len() as int;
    position::lemma_aligned(n + 8);
    position::lemma_valid_capacity(ring.capacity as int);
    let claim = ring.claim_of(ring.head(before), ring.tail(before), n)->Ok_0;
    law_write_appends(*ring, before, claim, msg_type, payload@);
    lemma_written_positions(*ring, before, claim, msg_type, payload@);
    law_read_drains(*ring, between);
    assert(ring.tail(after).wrapping_sub(ring.head(after)) == 0);
}

/// A read takes nothing while a position is no record boundary or the two are
/// more than the ring apart.
pub proof fn law_broken_positions_stop_the_read(
    ring: &MpscRingBuffer,
    before: Seq<u8>,
    after: Seq<u8>,
    earlier: Seq<RingMessage>,
    taken: Seq<RingMessage>,
    r: i32,
)
    requires
        ring.fits(before),
        exists|region: &mut [u8], messages: &mut Vec<RingMessage>|
            (*region)@ == before && (*final(region))@ == after && (*messages)@ == earlier
                && (*final(messages))@ == taken && #[trigger] call_ensures(
                MpscRingBuffer::read,
                (ring, region, messages),
                r,
            ),
        ({
            let head = wire::i64_at(before, ring.offset + ring.capacity);
            let tail = wire::i64_at(before, ring.offset + ring.capacity + 64);
            head as int % 32 != 0 || tail as int % 32 != 0 || tail.wrapping_sub(head) < 0
                || tail.wrapping_sub(head) > ring.capacity
        }),
    ensures
        after == before,
        taken == earlier,
        r == 0,
{
}

/// What each error says.
pub proof fn law_ring_buffer_error_says_what_is_wrong(e: &RingBufferError, r: String)
    requires
        call_ensures(RingBufferError::to_string, (e,), r),
    ensures
        match *e {
            RingBufferError::InvalidCapacity => r@ == "capacity must be power-of-two >= 32"@,
            RingBufferError::BufferTooSmall => r@ == "buffer too small for capacity + trailer"@,
            RingBufferError::MessageTooLarge => r@ == "message too large for ring buffer"@,
            RingBufferError::Full => r@ == "ring buffer full"@,
        },
{
}

/// A read starts at the consumer's position. A record that is committed there comes
/// out first, with its type and its payload; where the record is not committed, or
/// its length cannot be right, nothing comes out and nothing changes.
pub proof fn law_read_starts_at_the_head(
    ring: &MpscRingBuffer,
    before: Seq<u8>,
    after: Seq<u8>,
    earlier: Seq<RingMessage>,
    taken: Seq<RingMessage>,
    need: int,
    r: i32,
)
    requires
        ring.fits(before),
        exists|region: &mut [u8], messages: &mut Vec<RingMessage>|
            (*region)@ == before && (*final(region))@ == after && (*messages)@ == earlier
                && (*final(messages))@ == taken && #[trigger] call_ensures(
                MpscRingBuffer::read,
                (ring, region, messages),
                r,
            ),
        need % 32 == 0,
        ({
            let head = wire::i64_at(before, ring.offset + ring.capacity);
            let tail = wire::i64_at(before, ring.offset + ring.capacity + 64);
            let start = ring.offset + head as int % ring.capacity as int;
            let length = wire::i32_at(before, start + 4);
            &&& head as int % 32 == 0
            &&& tail as int % 32 == 0
            &&& 0 <= tail.wrapping_sub(head) <= ring.capacity
            &&& length <= need < length + 32
        }),
    ensures
        ({
            let head = wire::i64_at(before, ring.offset + ring.capacity);
            let tail = wire::i64_at(before, ring.offset + ring.capacity + 64);
            let used = tail.wrapping_sub(head);
            let index = head as int % ring.capacity as int;
            let start = ring.offset + index;
            let msg_type = wire::i32_at(before, start);
            let length = wire::i32_at(before, start + 4);
            let right = used > 0 && index + need <= ring.capacity && need <= used;
            &&& right && msg_type != -1 && length >= 8 ==> {
                &&& r >= 1
                &&& taken.len() == earlier.len() + r
                &&& taken[earlier.len() as int].msg_type == msg_type
                &&& taken[earlier.len() as int].payload@ == before.subrange(
                    start + 8,
                    start + length,
                )
            }
            &&& used == 0 || !right || length <= 0 || (msg_type != -1 && length < 8) ==> {
                &&& r == 0
                &&& message_views(taken) == message_views(earlier)
                &&& after == before
            }
        }),
{
    let head = ring.head(before);
    let used = ring.used(before);
    let step = ring.step_at(before, head as int);
    position::lemma_aligned(ring.length_at(before, head as int) as int);
    assert(need == step);
    let pending = ring.pending(before);
    assert(message_views(taken).len() == message_views(earlier).len() + pending.len());
    if used > 0 && ring.readable(before, head as int, used) && ring.type_at(before, head as int)
        != MSG_TYPE_PADDING {
        let first = (ring.type_at(before, head as int), ring.payload_at(before, head as int));
        let rest = ring.messages(before, head + step, used - step);
        assert(pending == seq![first] + rest);
        assert(pending[0] == first);
        assert(message_views(taken)[earlier.len() as int] == pending[0]);
        assert(taken[earlier.len() as int]@ == first);
    } else if used == 0 || !ring.readable(before, head as int, used) {
        assert(message_views(earlier) + pending =~= message_views(earlier));
    }
}

/// Positions are sound exactly where both are record boundaries and the producers'
/// is ahead by at most the ring.
pub proof fn law_positions_are_checked(ring: &MpscRingBuffer, region: &[u8], r: bool)
    requires
        ring.fits(region@),
        call_ensures(MpscRingBuffer::is_consistent, (ring, region), r),
    ensures
        ({
            let head = wire::i64_at(region@, ring.offset + ring.capacity);
            let tail = wire::i64_at(region@, ring.offset + ring.capacity + 64);
            r <==> head as int % 32 == 0 && tail as int % 32 == 0 && 0 <= tail.wrapping_sub(head)
                <= ring.capacity
        }),
{
}

/// A claim takes the record behind the producers' position where it fits before the
/// end of the ring, and else the rest of the ring as padding and the record at its
/// front. It is granted exactly where those bytes are free.
pub proof fn law_claim_takes_free_bytes(
    ring: &MpscRingBuffer,
    head: i64,
    tail: i64,
    payload_length: usize,
    need: int,
    r: Result<Claim, RingBufferError>,
)
    requires
        ring.wf(),
        call_ensures(MpscRingBuffer::claim, (ring, head, tail, payload_length), r),
        need % 32 == 0,
        payload_length + 8 <= need < payload_length + 8 + 32,
    ensures
        ({
            let free = ring.capacity - tail.wrapping_sub(head);
            let index = tail as int % ring.capacity as int;
            let room = ring.capacity - index;
            &&& payload_length + 8 > ring.capacity <==> r == Err::<Claim, RingBufferError>(
                RingBufferError::MessageTooLarge,
            )
            &&& r is Ok <==> payload_length + 8 <= ring.capacity && need <= free && (need <= room
                || room + need <= free)
            &&& r is Err && payload_length + 8 <= ring.capacity ==> r == Err::<
                Claim,
                RingBufferError,
            >(RingBufferError::Full)
            &&& r matches Ok(claim) ==> {
                &&& claim.tail == tail
                &&& claim.aligned_length == need
                &&& need <= room ==> claim.pad_length == 0 && claim.index == index
                    && claim.new_tail == tail.wrapping_add(need as i64)
                &&& need > room ==> claim.pad_length == room && claim.pad_index == index
                    && claim.index == 0 && claim.new_tail == tail.wrapping_add(
                    (room + need) as i64,
                )
            }
        }),
{
    position::lemma_aligned(payload_length as int + 8);
    position::lemma_valid_capacity(ring.capacity as int);
    assert(need == position::aligned(payload_length as int + 8));
}

} // verus!
