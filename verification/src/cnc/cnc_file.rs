//! The command-and-control region that the driver and its clients share.
//!
//! ```text
//!   [header]                       256 bytes
//!   [to-driver ring buffer]        to_driver_capacity + 128
//!   [to-clients broadcast buffer]  to_clients_capacity + 128
//! ```
//!
//! Header, little-endian: version at 0 (zero until the region is ready), driver
//! process id at 4, the two capacities at 8 and 12, driver heartbeat in
//! milliseconds at 16; the rest is reserved. The driver lays the region out, the
//! clients read the header to find their way. How the region is mapped is up to
//! the caller, which hands it to each operation.

use crate::cnc::broadcast;
use crate::cnc::broadcast::{BroadcastReceiver, BroadcastTransmitter};
use crate::cnc::position;
use crate::cnc::ring_buffer;
use crate::cnc::ring_buffer::MpscRingBuffer;
use crate::text;
use crate::wire;
use vstd::arithmetic::power2;
use vstd::prelude::*;
use vstd::string::StringExecFns;

verus! {

broadcast use wire::lemma_u32_le_len;

/// Version of the layout.
pub const CNC_VERSION: i32 = 1;

/// Bytes of the header.
pub const CNC_HEADER_LENGTH: usize = 256;

pub const CNC_VERSION_OFFSET: usize = 0;

pub const PID_OFFSET: usize = 4;

pub const TO_DRIVER_CAPACITY_OFFSET: usize = 8;

pub const TO_CLIENTS_CAPACITY_OFFSET: usize = 12;

pub const DRIVER_HEARTBEAT_OFFSET: usize = 16;

/// What can go wrong with the region.
#[derive(Debug, Clone, Copy, PartialEq, Eq, Structural)]
pub enum CncError {
    /// A capacity is not a power of two >= 32, or the region is too small for
    /// the two.
    InvalidCapacity,
    /// Mapping or file creation failed, with this error number.
    IoError(i32),
    /// The region is of another version.
    VersionMismatch,
    /// The header is not ready yet.
    NotReady,
}

impl CncError {
    /// Text of the error.
    pub open spec fn text(self) -> Seq<char> {
        match self {
            CncError::InvalidCapacity => "capacity must be power-of-two >= 32"@,
            CncError::IoError(errno) => "io error: errno "@ + text::signed_numeral(errno as int),
            CncError::VersionMismatch => "CnC version mismatch"@,
            CncError::NotReady => "CnC file not ready"@,
        }
    }

    /// Text of the error.
    pub fn to_string(&self) -> (r: String)
        ensures
            r@ == self.text(),
    {
        match self {
            CncError::InvalidCapacity => "capacity must be power-of-two >= 32".to_owned(),
            CncError::IoError(errno) => {
                let mut r = "io error: errno ".to_owned();
                text::append_signed_numeral(&mut r, *errno);
                r
            },
            CncError::VersionMismatch => "CnC version mismatch".to_owned(),
            CncError::NotReady => "CnC file not ready".to_owned(),
        }
    }
}

/// Offset of the to-driver ring buffer.
pub open spec fn to_driver_at() -> int {
    CNC_HEADER_LENGTH as int
}

/// Offset of the to-clients broadcast buffer.
pub open spec fn to_clients_at(to_driver_capacity: int) -> int {
    to_driver_at() + to_driver_capacity + ring_buffer::TRAILER_LENGTH
}

/// Length of a region with these capacities.
pub open spec fn region_length(to_driver_capacity: int, to_clients_capacity: int) -> int {
    to_clients_at(to_driver_capacity) + to_clients_capacity + broadcast::TRAILER_LENGTH
}

/// Length of a region with these capacities.
pub fn cnc_file_length(to_driver_capacity: usize, to_clients_capacity: usize) -> (r: usize)
    requires
        region_length(to_driver_capacity as int, to_clients_capacity as int) <= usize::MAX,
    ensures
        r == region_length(to_driver_capacity as int, to_clients_capacity as int),
{
    CNC_HEADER_LENGTH + ring_buffer::required_buffer_size(to_driver_capacity)
        + broadcast::required_buffer_size(to_clients_capacity)
}

/// Version in the header.
pub open spec fn version_of(s: Seq<u8>) -> i32 {
    wire::i32_at(s, CNC_VERSION_OFFSET as int)
}

/// Driver process id in the header.
pub open spec fn pid_of(s: Seq<u8>) -> i32 {
    wire::i32_at(s, PID_OFFSET as int)
}

/// To-driver capacity in the header.
pub open spec fn to_driver_capacity_of(s: Seq<u8>) -> i32 {
    wire::i32_at(s, TO_DRIVER_CAPACITY_OFFSET as int)
}

/// To-clients capacity in the header.
pub open spec fn to_clients_capacity_of(s: Seq<u8>) -> i32 {
    wire::i32_at(s, TO_CLIENTS_CAPACITY_OFFSET as int)
}

/// Driver heartbeat in the header, in milliseconds.
pub open spec fn heartbeat_of(s: Seq<u8>) -> i64 {
    wire::i64_at(s, DRIVER_HEARTBEAT_OFFSET as int)
}

/// The header of a ready region.
pub open spec fn header_bytes(
    pid: i32,
    to_driver_capacity: i32,
    to_clients_capacity: i32,
    now_ms: i64,
) -> Seq<u8> {
    wire::i32_le(CNC_VERSION) + wire::i32_le(pid) + wire::i32_le(to_driver_capacity)
        + wire::i32_le(to_clients_capacity) + wire::i64_le(now_ms)
}

/// A region as the driver lays it out.
pub open spec fn fresh_region(
    length: nat,
    pid: i32,
    to_driver_capacity: int,
    to_clients_capacity: int,
    now_ms: i64,
) -> Seq<u8> {
    wire::splice(
        wire::zeros(length),
        0,
        header_bytes(pid, to_driver_capacity as i32, to_clients_capacity as i32, now_ms),
    )
}

/// The driver's side of the region: it reads commands and transmits responses.
#[derive(Debug, Clone, Copy, PartialEq, Eq, Structural)]
pub struct DriverCnc {
    /// Length of the region.
    pub length: usize,
    pub to_driver: MpscRingBuffer,
    pub to_clients: BroadcastTransmitter,
    pub to_driver_capacity: usize,
    pub to_clients_capacity: usize,
}

impl DriverCnc {
    /// Both channels stand where the layout puts them, within the length.
    pub open spec fn wf(self) -> bool {
        &&& self.to_driver.wf()
        &&& self.to_driver.offset == to_driver_at()
        &&& self.to_driver.capacity == self.to_driver_capacity
        &&& self.to_clients.wf()
        &&& self.to_clients.layout.offset == to_clients_at(self.to_driver_capacity as int)
        &&& self.to_clients.layout.capacity == self.to_clients_capacity
        &&& region_length(self.to_driver_capacity as int, self.to_clients_capacity as int)
            <= self.length
    }

    /// The side belongs to a region of this length.
    pub open spec fn fits(self, s: Seq<u8>) -> bool {
        self.wf() && s.len() == self.length
    }

    /// Checks that both capacities are powers of two from 32 on.
    pub fn validate_capacities(to_driver_capacity: usize, to_clients_capacity: usize) -> (r: Result<
        (),
        CncError,
    >)
        ensures
            r == if position::valid_capacity(to_driver_capacity as int)
                && position::valid_capacity(to_clients_capacity as int) {
                Ok::<(), CncError>(())
            } else {
                Err::<(), CncError>(CncError::InvalidCapacity)
            },
    {
        if to_driver_capacity < 32 || !to_driver_capacity.is_power_of_two() {
            return Err(CncError::InvalidCapacity);
        }
        if to_clients_capacity < 32 || !to_clients_capacity.is_power_of_two() {
            return Err(CncError::InvalidCapacity);
        }
        Ok(())
    }

    /// Makes a region of its own, for use within one process.
    pub fn create_anonymous(
        to_driver_capacity: usize,
        to_clients_capacity: usize,
        pid: i32,
        now_ms: i64,
    ) -> (r: Result<(Vec<u8>, DriverCnc), CncError>)
        requires
            region_length(to_driver_capacity as int, to_clients_capacity as int) <= usize::MAX,
        ensures
            r is Ok <==> position::valid_capacity(to_driver_capacity as int)
                && position::valid_capacity(to_clients_capacity as int),
            match r {
                Ok((region, cnc)) => {
                    &&& region@ == fresh_region(
                        region_length(
                            to_driver_capacity as int,
                            to_clients_capacity as int,
                        ) as nat,
                        pid,
                        to_driver_capacity as int,
                        to_clients_capacity as int,
                        now_ms,
                    )
                    &&& cnc.fits(region@)
                    &&& cnc.to_driver_capacity == to_driver_capacity
                    &&& cnc.to_clients_capacity == to_clients_capacity
                },
                Err(e) => e == CncError::InvalidCapacity,
            },
    {
        match DriverCnc::validate_capacities(to_driver_capacity, to_clients_capacity) {
            Ok(()) => {},
            Err(e) => {
                return Err(e);
            },
        }
        let length: usize = cnc_file_length(to_driver_capacity, to_clients_capacity);
        let mut region: Vec<u8> = vec![0u8; length];
        match DriverCnc::init(
            &mut region,
            to_driver_capacity,
            to_clients_capacity,
            pid,
            now_ms,
        ) {
            Ok(cnc) => Ok((region, cnc)),
            Err(e) => Err(e),
        }
    }

    /// Lays a region out: zeros, then the header, the version last.
    pub fn init(
        region: &mut [u8],
        to_driver_capacity: usize,
        to_clients_capacity: usize,
        pid: i32,
        now_ms: i64,
    ) -> (r: Result<Self, CncError>)
        ensures
            r is Ok <==> position::valid_capacity(to_driver_capacity as int)
                && position::valid_capacity(to_clients_capacity as int) && region_length(
                to_driver_capacity as int,
                to_clients_capacity as int,
            ) <= old(region)@.len(),
            match r {
                Ok(cnc) => {
                    &&& final(region)@ == fresh_region(
                        old(region)@.len(),
                        pid,
                        to_driver_capacity as int,
                        to_clients_capacity as int,
                        now_ms,
                    )
                    &&& cnc.fits(final(region)@)
                    &&& cnc.to_driver_capacity == to_driver_capacity
                    &&& cnc.to_clients_capacity == to_clients_capacity
                },
                Err(e) => e == CncError::InvalidCapacity && final(region)@ == wire::zeros(
                    old(region)@.len(),
                ),
            },
    {
        let length: usize = region.len();
        wire::write_zeros(region, 0, length);
        assert(region@ =~= wire::zeros(old(region)@.len()));
        let to_driver = match MpscRingBuffer::new(region, CNC_HEADER_LENGTH, to_driver_capacity) {
            Ok(ring) => ring,
            Err(_) => {
                return Err(CncError::InvalidCapacity);
            },
        };
        let to_clients_offset: usize = CNC_HEADER_LENGTH + ring_buffer::required_buffer_size(
            to_driver_capacity,
        );
        let to_clients = match BroadcastTransmitter::new(
            region,
            to_clients_offset,
            to_clients_capacity,
        ) {
            Ok(tx) => tx,
            Err(_) => {
                return Err(CncError::InvalidCapacity);
            },
        };
        #[verifier::truncate]
        let driver_field: i32 = to_driver_capacity as i32;
        #[verifier::truncate]
        let clients_field: i32 = to_clients_capacity as i32;
        wire::write_i32(region, PID_OFFSET, pid);
        wire::write_i32(region, TO_DRIVER_CAPACITY_OFFSET, driver_field);
        wire::write_i32(region, TO_CLIENTS_CAPACITY_OFFSET, clients_field);
        wire::write_i64(region, DRIVER_HEARTBEAT_OFFSET, now_ms);
        wire::write_i32(region, CNC_VERSION_OFFSET, CNC_VERSION);
        assert(region@ =~= fresh_region(
            old(region)@.len(),
            pid,
            to_driver_capacity as int,
            to_clients_capacity as int,
            now_ms,
        ));
        Ok(
            DriverCnc {
                length,
                to_driver,
                to_clients,
                to_driver_capacity,
                to_clients_capacity,
            },
        )
    }

    /// The ring buffer that commands come through.
    pub fn to_driver(&self) -> (r: &MpscRingBuffer)
        ensures
            *r == self.to_driver,
    {
        &self.to_driver
    }

    /// The broadcast buffer that responses go through.
    pub fn to_clients(&self) -> (r: &BroadcastTransmitter)
        ensures
            *r == self.to_clients,
    {
        &self.to_clients
    }

    /// Notes that the driver is alive.
    pub fn update_heartbeat(&self, region: &mut [u8], now_ms: i64)
        requires
            self.fits(old(region)@),
        ensures
            final(region)@ == wire::splice(
                old(region)@,
                DRIVER_HEARTBEAT_OFFSET as int,
                wire::i64_le(now_ms),
            ),
    {
        wire::write_i64(region, DRIVER_HEARTBEAT_OFFSET, now_ms);
    }

    /// Tells clients that the driver shuts down: the region is not ready any more.
    pub fn close(&self, region: &mut [u8])
        requires
            self.fits(old(region)@),
        ensures
            final(region)@ == wire::splice(
                old(region)@,
                CNC_VERSION_OFFSET as int,
                wire::i32_le(0),
            ),
    {
        wire::write_i32(region, CNC_VERSION_OFFSET, 0);
    }

    /// Length of the region.
    pub fn length(&self) -> (r: usize)
        ensures
            r == self.length,
    {
        self.length
    }

    /// To-driver capacity.
    pub fn to_driver_capacity(&self) -> (r: usize)
        ensures
            r == self.to_driver_capacity,
    {
        self.to_driver_capacity
    }

    /// To-clients capacity.
    pub fn to_clients_capacity(&self) -> (r: usize)
        ensures
            r == self.to_clients_capacity,
    {
        self.to_clients_capacity
    }
}

/// A client's side of the region: it writes commands and receives responses.
#[derive(Debug, Clone, Copy, PartialEq, Eq, Structural)]
pub struct ClientCnc {
    /// Length of the region.
    pub length: usize,
    pub to_driver: MpscRingBuffer,
    pub to_clients_rx: BroadcastReceiver,
}

impl ClientCnc {
    /// Both channels stand within the length.
    pub open spec fn wf(self) -> bool {
        &&& self.to_driver.wf()
        &&& self.to_driver.offset == to_driver_at()
        &&& self.to_clients_rx.layout.wf()
        &&& self.to_clients_rx.layout.offset == to_clients_at(self.to_driver.capacity as int)
        &&& region_length(
            self.to_driver.capacity as int,
            self.to_clients_rx.layout.capacity as int,
        ) <= self.length
    }

    /// The side belongs to a region of this length.
    pub open spec fn fits(self, s: Seq<u8>) -> bool {
        self.wf() && s.len() == self.length
    }

    /// The header promises channels that the region can hold.
    pub open spec fn usable(s: Seq<u8>) -> bool {
        &&& position::valid_capacity(to_driver_capacity_of(s) as int)
        &&& position::valid_capacity(to_clients_capacity_of(s) as int)
        &&& region_length(to_driver_capacity_of(s) as int, to_clients_capacity_of(s) as int)
            <= s.len()
    }

    /// Opens a region that a driver has laid out. The client sees responses from
    /// now on.
    pub fn from_ptr(region: &[u8]) -> (r: Result<Self, CncError>)
        requires
            region@.len() >= CNC_HEADER_LENGTH,
        ensures
            r is Ok <==> version_of(region@) == CNC_VERSION && Self::usable(region@),
            match r {
                Ok(client) => {
                    &&& client.fits(region@)
                    &&& client.to_driver.capacity == to_driver_capacity_of(region@)
                    &&& client.to_clients_rx.layout.capacity == to_clients_capacity_of(region@)
                    &&& client.to_clients_rx.cursor == client.to_clients_rx.layout.tail(region@)
                    &&& client.to_clients_rx.lapped_count == 0
                },
                Err(e) => e == if version_of(region@) == 0 {
                    CncError::NotReady
                } else if version_of(region@) != CNC_VERSION {
                    CncError::VersionMismatch
                } else {
                    CncError::InvalidCapacity
                },
            },
    {
        let version: i32 = wire::read_i32(region, CNC_VERSION_OFFSET);
        if version == 0 {
            return Err(CncError::NotReady);
        }
        if version != CNC_VERSION {
            return Err(CncError::VersionMismatch);
        }
        let driver_field: i32 = wire::read_i32(region, TO_DRIVER_CAPACITY_OFFSET);
        let clients_field: i32 = wire::read_i32(region, TO_CLIENTS_CAPACITY_OFFSET);
        if driver_field < 0 || clients_field < 0 {
            return Err(CncError::InvalidCapacity);
        }
        let to_driver = match MpscRingBuffer::new(
            region,
            CNC_HEADER_LENGTH,
            driver_field as usize,
        ) {
            Ok(ring) => ring,
            Err(_) => {
                return Err(CncError::InvalidCapacity);
            },
        };
        let to_clients_offset: usize = CNC_HEADER_LENGTH + ring_buffer::required_buffer_size(
            driver_field as usize,
        );
        let to_clients = match BroadcastTransmitter::new(
            region,
            to_clients_offset,
            clients_field as usize,
        ) {
            Ok(tx) => tx,
            Err(_) => {
                return Err(CncError::InvalidCapacity);
            },
        };
        let cursor: i64 = to_clients.tail_counter(region);
        let to_clients_rx = BroadcastReceiver::new(
            to_clients_offset,
            clients_field as usize,
            cursor,
        );
        Ok(ClientCnc { length: region.len(), to_driver, to_clients_rx })
    }

    /// The ring buffer that commands go through.
    pub fn to_driver(&self) -> (r: &MpscRingBuffer)
        ensures
            *r == self.to_driver,
    {
        &self.to_driver
    }

    /// The receiver that responses come through.
    pub fn to_clients(&mut self) -> (r: &mut BroadcastReceiver)
        ensures
            *r == old(self).to_clients_rx,
            *final(self) == (ClientCnc { to_clients_rx: *final(r), ..*old(self) }),
    {
        &mut self.to_clients_rx
    }

    /// Whether the driver's heartbeat is less than `timeout_ms` old.
    pub fn is_driver_alive(&self, region: &[u8], now_ms: i64, timeout_ms: i64) -> (r: bool)
        requires
            self.fits(region@),
        ensures
            r == (now_ms.wrapping_sub(heartbeat_of(region@)) < timeout_ms),
    {
        let last: i64 = wire::read_i64(region, DRIVER_HEARTBEAT_OFFSET);
        now_ms.wrapping_sub(last) < timeout_ms
    }

    /// Process id of the driver.
    pub fn driver_pid(&self, region: &[u8]) -> (r: i32)
        requires
            self.fits(region@),
        ensures
            r == pid_of(region@),
    {
        wire::read_i32(region, PID_OFFSET)
    }
}

/// A client can open the region that a driver laid out: it finds the version,
/// the process id, the capacities and the heartbeat that the driver wrote, and
/// both channels empty.
pub proof fn law_fresh_region_opens(
    length: nat,
    pid: i32,
    to_driver_capacity: int,
    to_clients_capacity: int,
    now_ms: i64,
    driver: DriverCnc,
)
    requires
        position::valid_capacity(to_driver_capacity),
        position::valid_capacity(to_clients_capacity),
        to_driver_capacity <= i32::MAX,
        to_clients_capacity <= i32::MAX,
        region_length(to_driver_capacity, to_clients_capacity) <= length,
        driver.fits(
            fresh_region(length, pid, to_driver_capacity, to_clients_capacity, now_ms),
        ),
        driver.to_driver_capacity == to_driver_capacity,
        driver.to_clients_capacity == to_clients_capacity,
    ensures
        ({
            let s = fresh_region(length, pid, to_driver_capacity, to_clients_capacity, now_ms);
            &&& version_of(s) == CNC_VERSION
            &&& pid_of(s) == pid
            &&& to_driver_capacity_of(s) == to_driver_capacity
            &&& to_clients_capacity_of(s) == to_clients_capacity
            &&& heartbeat_of(s) == now_ms
            &&& ClientCnc::usable(s)
            &&& driver.to_driver.committed(s)
            &&& driver.to_driver.used(s) == 0
            &&& driver.to_clients.layout.tail(s) == 0
        }),
{
    let s = fresh_region(length, pid, to_driver_capacity, to_clients_capacity, now_ms);
    lemma_fresh_header(length, pid, to_driver_capacity, to_clients_capacity, now_ms);
    ring_buffer::law_new_ring_is_empty(driver.to_driver, s);
    let o = driver.to_clients.layout.offset + to_clients_capacity;
    wire::lemma_i64_le_zero();
    assert forall|i: int| 0 <= i < 8 implies s[o + i] == #[trigger] wire::i64_le(0)[i] by {}
    wire::lemma_i64_at_le(s, o, 0);
}

/// After the driver has closed the region, a client finds it not ready.
pub proof fn law_closed_region_is_not_ready(s: Seq<u8>)
    requires
        s.len() >= CNC_HEADER_LENGTH,
    ensures
        version_of(wire::splice(s, CNC_VERSION_OFFSET as int, wire::i32_le(0))) == 0,
{
    let t = wire::splice(s, CNC_VERSION_OFFSET as int, wire::i32_le(0));
    assert forall|i: int| 0 <= i < 4 implies t[0 + i] == #[trigger] wire::i32_le(0)[i] by {}
    wire::lemma_i32_at_le(t, 0, 0);
}

/// A heartbeat makes the driver alive for the whole timeout.
pub proof fn law_heartbeat_is_seen(s: Seq<u8>, now_ms: i64, later_ms: i64, timeout_ms: i64)
    requires
        s.len() >= CNC_HEADER_LENGTH,
        0 <= later_ms.wrapping_sub(now_ms) < timeout_ms,
    ensures
        ({
            let t = wire::splice(s, DRIVER_HEARTBEAT_OFFSET as int, wire::i64_le(now_ms));
            later_ms.wrapping_sub(heartbeat_of(t)) < timeout_ms
        }),
{
    let t = wire::splice(s, DRIVER_HEARTBEAT_OFFSET as int, wire::i64_le(now_ms));
    assert forall|i: int| 0 <= i < 8 implies t[16 + i] == #[trigger] wire::i64_le(now_ms)[i] by {}
    wire::lemma_i64_at_le(t, 16, now_ms);
}

/// The region holds 256 bytes of header, then the commands and then the
/// responses, each with 128 bytes behind its data.
pub proof fn law_region_holds_header_and_both_buffers(
    to_driver_capacity: usize,
    to_clients_capacity: usize,
    r: usize,
)
    requires
        call_ensures(cnc_file_length, (to_driver_capacity, to_clients_capacity), r),
    ensures
        r == 256 + to_driver_capacity + 128 + to_clients_capacity + 128,
{
}

/// Capacities are accepted exactly where both are powers of two of 32 or more.
pub proof fn law_capacities_are_powers_of_two(
    to_driver_capacity: usize,
    to_clients_capacity: usize,
    r: Result<(), CncError>,
)
    requires
        call_ensures(
            DriverCnc::validate_capacities,
            (to_driver_capacity, to_clients_capacity),
            r,
        ),
    ensures
        r is Ok <==> to_driver_capacity >= 32 && power2::is_pow2(to_driver_capacity as int)
            && to_clients_capacity >= 32 && power2::is_pow2(to_clients_capacity as int),
        r matches Err(e) ==> e == CncError::InvalidCapacity,
{
}

/// The header of a fresh region holds what it was laid out with, and the rest is
/// zero.
pub proof fn lemma_fresh_header(
    length: nat,
    pid: i32,
    to_driver_capacity: int,
    to_clients_capacity: int,
    now_ms: i64,
)
    requires
        length >= 24,
    ensures
        ({
            let s = fresh_region(length, pid, to_driver_capacity, to_clients_capacity, now_ms);
            &&& s.len() == length
            &&& wire::i32_at(s, 0) == CNC_VERSION
            &&& wire::i32_at(s, 4) == pid
            &&& wire::i32_at(s, 8) == to_driver_capacity as i32
            &&& wire::i32_at(s, 12) == to_clients_capacity as i32
            &&& wire::i64_at(s, 16) == now_ms
            &&& forall|k: int| 24 <= k < length ==> #[trigger] s[k] == 0
        }),
{
    let s = fresh_region(length, pid, to_driver_capacity, to_clients_capacity, now_ms);
    let (a, b) = (to_driver_capacity as i32, to_clients_capacity as i32);
    assert forall|i: int| 0 <= i < 4 implies s[0 + i] == #[trigger] wire::i32_le(CNC_VERSION)[i] by {}
    wire::lemma_i32_at_le(s, 0, CNC_VERSION);
    assert forall|i: int| 0 <= i < 4 implies s[4 + i] == #[trigger] wire::i32_le(pid)[i] by {}
    wire::lemma_i32_at_le(s, 4, pid);
    assert forall|i: int| 0 <= i < 4 implies s[8 + i] == #[trigger] wire::i32_le(a)[i] by {}
    wire::lemma_i32_at_le(s, 8, a);
    assert forall|i: int| 0 <= i < 4 implies s[12 + i] == #[trigger] wire::i32_le(b)[i] by {}
    wire::lemma_i32_at_le(s, 12, b);
    assert forall|i: int| 0 <= i < 8 implies s[16 + i] == #[trigger] wire::i64_le(now_ms)[i] by {}
    wire::lemma_i64_at_le(s, 16, now_ms);
}

/// A region that belongs to the driver alone is laid out like any other, and is
/// just as long as it has to be.
pub proof fn law_anonymous_region_is_laid_out(
    to_driver_capacity: usize,
    to_clients_capacity: usize,
    pid: i32,
    now_ms: i64,
    r: Result<(Vec<u8>, DriverCnc), CncError>,
)
    requires
        call_ensures(
            DriverCnc::create_anonymous,
            (to_driver_capacity, to_clients_capacity, pid, now_ms),
            r,
        ),
    ensures
        r is Ok <==> to_driver_capacity >= 32 && power2::is_pow2(to_driver_capacity as int)
            && to_clients_capacity >= 32 && power2::is_pow2(to_clients_capacity as int),
        r matches Err(e) ==> e == CncError::InvalidCapacity,
        r matches Ok((region, cnc)) ==> {
            &&& region@.len() == 256 + to_driver_capacity + 128 + to_clients_capacity + 128
            &&& cnc.length == region@.len()
            &&& cnc.to_driver.offset == 256
            &&& cnc.to_driver.capacity == to_driver_capacity
            &&& cnc.to_clients.layout.offset == 256 + to_driver_capacity + 128
            &&& cnc.to_clients.layout.capacity == to_clients_capacity
            &&& wire::i32_at(region@, 0) == 1
            &&& wire::i32_at(region@, 4) == pid
            &&& to_driver_capacity <= i32::MAX ==> wire::i32_at(region@, 8) == to_driver_capacity
            &&& to_clients_capacity <= i32::MAX ==> wire::i32_at(region@, 12)
                == to_clients_capacity
            &&& wire::i64_at(region@, 16) == now_ms
            &&& forall|k: int| 24 <= k < region@.len() ==> #[trigger] region@[k] == 0
        },
{
    if let Ok((region, cnc)) = r {
        lemma_fresh_header(
            region@.len(),
            pid,
            to_driver_capacity as int,
            to_clients_capacity as int,
            now_ms,
        );
    }
}

/// A region that the driver has laid out says so in its header, is zero behind the
/// header, and has the commands from 256 on and the responses behind them.
pub proof fn law_driver_lays_the_region_out(
    before: Seq<u8>,
    after: Seq<u8>,
    to_driver_capacity: usize,
    to_clients_capacity: usize,
    pid: i32,
    now_ms: i64,
    r: Result<DriverCnc, CncError>,
)
    requires
        exists|region: &mut [u8]|
            (*region)@ == before && (*final(region))@ == after && #[trigger] call_ensures(
                DriverCnc::init,
                (region, to_driver_capacity, to_clients_capacity, pid, now_ms),
                r,
            ),
    ensures
        r is Ok <==> to_driver_capacity >= 32 && power2::is_pow2(to_driver_capacity as int)
            && to_clients_capacity >= 32 && power2::is_pow2(to_clients_capacity as int) && 256
            + to_driver_capacity + 128 + to_clients_capacity + 128 <= before.len(),
        r matches Err(e) ==> e == CncError::InvalidCapacity,
        after.len() == before.len(),
        r matches Ok(cnc) ==> {
            &&& cnc.length == before.len()
            &&& cnc.to_driver_capacity == to_driver_capacity
            &&& cnc.to_clients_capacity == to_clients_capacity
            &&& cnc.to_driver.offset == 256
            &&& cnc.to_driver.capacity == to_driver_capacity
            &&& cnc.to_clients.layout.offset == 256 + to_driver_capacity + 128
            &&& cnc.to_clients.layout.capacity == to_clients_capacity
            &&& wire::i32_at(after, 0) == 1
            &&& wire::i32_at(after, 4) == pid
            &&& to_driver_capacity <= i32::MAX ==> wire::i32_at(after, 8) == to_driver_capacity
            &&& to_clients_capacity <= i32::MAX ==> wire::i32_at(after, 12) == to_clients_capacity
            &&& wire::i64_at(after, 16) == now_ms
            &&& forall|k: int| 24 <= k < after.len() ==> #[trigger] after[k] == 0
        },
{
    if r is Ok {
        lemma_fresh_header(
            before.len(),
            pid,
            to_driver_capacity as int,
            to_clients_capacity as int,
            now_ms,
        );
    }
}

/// A client finds the region that the header describes: the commands from 256 on,
/// the responses behind them, and itself behind the last response. It refuses a
/// region without a version as not ready, one of another version, and one whose
/// capacities do not fit.
pub proof fn law_client_finds_what_the_header_says(
    region: &[u8],
    r: Result<ClientCnc, CncError>,
)
    requires
        region@.len() >= 256,
        call_ensures(ClientCnc::from_ptr, (region,), r),
    ensures
        ({
            let version = wire::i32_at(region@, 0);
            let to_driver = wire::i32_at(region@, 8) as int;
            let to_clients = wire::i32_at(region@, 12) as int;
            &&& version == 0 <==> r == Err::<ClientCnc, CncError>(CncError::NotReady)
            &&& version != 0 && version != 1 <==> r == Err::<ClientCnc, CncError>(
                CncError::VersionMismatch,
            )
            &&& r is Ok <==> version == 1 && to_driver >= 32 && power2::is_pow2(to_driver)
                && to_clients >= 32 && power2::is_pow2(to_clients) && 256 + to_driver + 128
                + to_clients + 128 <= region@.len()
            &&& r is Err && version == 1 ==> r == Err::<ClientCnc, CncError>(
                CncError::InvalidCapacity,
            )
            &&& r matches Ok(client) ==> {
                &&& client.length == region@.len()
                &&& client.to_driver.offset == 256
                &&& client.to_driver.capacity == to_driver
                &&& client.to_clients_rx.layout.offset == 256 + to_driver + 128
                &&& client.to_clients_rx.layout.capacity == to_clients
                &&& client.to_clients_rx.cursor == wire::i64_at(
                    region@,
                    256 + to_driver + 128 + to_clients,
                )
                &&& client.to_clients_rx.lapped_count == 0
            }
        }),
{
}

/// A client takes the driver for alive exactly where its last heartbeat is less
/// than the timeout ago, and finds its process id beside it.
pub proof fn law_heartbeat_keeps_the_driver_alive(
    client: &ClientCnc,
    region: &[u8],
    now_ms: i64,
    timeout_ms: i64,
    alive: bool,
    pid: i32,
)
    requires
        client.fits(region@),
        call_ensures(ClientCnc::is_driver_alive, (client, region, now_ms, timeout_ms), alive),
        call_ensures(ClientCnc::driver_pid, (client, region), pid),
    ensures
        ({
            let age = now_ms - wire::i64_at(region@, 16);
            i64::MIN <= age <= i64::MAX ==> (alive <==> age < timeout_ms)
        }),
        alive <==> now_ms.wrapping_sub(wire::i64_at(region@, 16)) < timeout_ms,
        pid == wire::i32_at(region@, 4),
{
}

/// A heartbeat puts the time into the header and touches no other byte.
pub proof fn law_heartbeat_is_noted(
    driver: &DriverCnc,
    before: Seq<u8>,
    after: Seq<u8>,
    now_ms: i64,
)
    requires
        driver.fits(before),
        exists|region: &mut [u8]|
            (*region)@ == before && (*final(region))@ == after && #[trigger] call_ensures(
                DriverCnc::update_heartbeat,
                (driver, region, now_ms),
                (),
            ),
    ensures
        after.len() == before.len(),
        wire::i64_at(after, 16) == now_ms,
        forall|k: int|
            0 <= k < before.len() && !(16 <= k < 24) ==> #[trigger] after[k] == before[k],
{
    assert forall|i: int| 0 <= i < 8 implies after[16 + i] == #[trigger] wire::i64_le(
        now_ms,
    )[i] by {}
    wire::lemma_i64_at_le(after, 16, now_ms);
}

/// A closed region has no version, so that no client finds it ready, and is
/// otherwise as it was.
pub proof fn law_client_does_not_open_a_closed_region(
    driver: &DriverCnc,
    before: Seq<u8>,
    after: &[u8],
    r: Result<ClientCnc, CncError>,
)
    requires
        driver.fits(before),
        exists|region: &mut [u8]|
            (*region)@ == before && (*final(region))@ == after@ && #[trigger] call_ensures(
                DriverCnc::close,
                (driver, region),
                (),
            ),
        call_ensures(ClientCnc::from_ptr, (after,), r),
    ensures
        wire::i32_at(after@, 0) == 0,
        r == Err::<ClientCnc, CncError>(CncError::NotReady),
        after@.len() == before.len(),
        forall|k: int| 4 <= k < before.len() ==> #[trigger] after@[k] == before[k],
{
    assert forall|i: int| 0 <= i < 4 implies after@[0 + i] == #[trigger] wire::i32_le(0)[i] by {}
    wire::lemma_i32_at_le(after@, 0, 0);
}

/// A client that opens a region that the driver has laid out finds the same
/// buffers in it, the driver's process id and its heartbeat.
pub proof fn law_client_and_driver_share_the_buffers(
    before: Seq<u8>,
    region: &[u8],
    to_driver_capacity: usize,
    to_clients_capacity: usize,
    pid: i32,
    now_ms: i64,
    driver: DriverCnc,
    client: ClientCnc,
    found: i32,
)
    requires
        to_driver_capacity <= i32::MAX,
        to_clients_capacity <= i32::MAX,
        exists|laid: &mut [u8]|
            (*laid)@ == before && (*final(laid))@ == region@ && #[trigger] call_ensures(
                DriverCnc::init,
                (laid, to_driver_capacity, to_clients_capacity, pid, now_ms),
                Ok(driver),
            ),
        call_ensures(ClientCnc::from_ptr, (region,), Ok(client)),
        call_ensures(ClientCnc::driver_pid, (&client, region), found),
    ensures
        client.to_driver == driver.to_driver,
        client.to_clients_rx.layout == driver.to_clients.layout,
        client.to_clients_rx.cursor == 0,
        found == pid,
{
    law_driver_lays_the_region_out(
        before,
        region@,
        to_driver_capacity,
        to_clients_capacity,
        pid,
        now_ms,
        Ok(driver),
    );
    law_client_finds_what_the_header_says(region, Ok(client));
    let o = 256 + to_driver_capacity + 128 + to_clients_capacity;
    wire::lemma_i64_le_zero();
    assert forall|i: int| 0 <= i < 8 implies region@[o + i] == #[trigger] wire::i64_le(0)[i] by {}
    wire::lemma_i64_at_le(region@, o, 0);
}

/// What each error says. An I/O error names its number.
pub proof fn law_cnc_error_says_what_is_wrong(e: &CncError, r: String)
    requires
        call_ensures(CncError::to_string, (e,), r),
    ensures
        match *e {
            CncError::InvalidCapacity => r@ == "capacity must be power-of-two >= 32"@,
            CncError::IoError(errno) => {
                let prefix = "io error: errno "@;
                let number = r@.skip(prefix.len() as int);
                &&& r@.take(prefix.len() as int) == prefix
                &&& text::denotes(number, errno as int)
            },
            CncError::VersionMismatch => r@ == "CnC version mismatch"@,
            CncError::NotReady => r@ == "CnC file not ready"@,
        },
{
    if let CncError::IoError(errno) = *e {
        let prefix = "io error: errno "@;
        text::law_numeral_denotes_its_number(errno as int);
        assert(r@.take(prefix.len() as int) =~= prefix);
        assert(r@.skip(prefix.len() as int) =~= text::signed_numeral(errno as int));
    }
}

/// A region tells its length, its capacities and where its buffers are.
pub proof fn law_region_tells_its_parts(
    driver: &DriverCnc,
    client: &ClientCnc,
    length: usize,
    to_driver_capacity: usize,
    to_clients_capacity: usize,
    to_driver: &MpscRingBuffer,
    to_clients: &BroadcastTransmitter,
    client_to_driver: &MpscRingBuffer,
)
    requires
        call_ensures(DriverCnc::length, (driver,), length),
        call_ensures(DriverCnc::to_driver_capacity, (driver,), to_driver_capacity),
        call_ensures(DriverCnc::to_clients_capacity, (driver,), to_clients_capacity),
        call_ensures(DriverCnc::to_driver, (driver,), to_driver),
        call_ensures(DriverCnc::to_clients, (driver,), to_clients),
        call_ensures(ClientCnc::to_driver, (client,), client_to_driver),
    ensures
        *driver == (DriverCnc {
            length,
            to_driver: *to_driver,
            to_clients: *to_clients,
            to_driver_capacity,
            to_clients_capacity,
        }),
        *client_to_driver == client.to_driver,
{
}

} // verus!
