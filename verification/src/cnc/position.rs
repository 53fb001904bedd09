//! Positions in a ring.
//!
//! A position is a signed 64-bit counter of bytes that only grows and wraps
//! around. The byte that it stands for in a ring whose capacity is a power of
//! two is its remainder, taken by a bitmask.

use vstd::arithmetic::div_mod;
use vstd::arithmetic::mul;
use vstd::arithmetic::power;
use vstd::arithmetic::power2;
use vstd::bits;
use vstd::prelude::*;

verus! {

/// Record alignment, a power of two.
pub const RECORD_ALIGNMENT: usize = 32;

/// `n` rounded up to the record alignment.
pub open spec fn aligned(n: int) -> int {
    (n + 31) / 32 * 32
}

/// Index in a ring of `capacity` bytes that a position stands for.
pub open spec fn index_of(position: int, capacity: int) -> int {
    position % capacity
}

/// Capacities that a ring may have.
pub open spec fn valid_capacity(capacity: int) -> bool {
    capacity >= RECORD_ALIGNMENT && power2::is_pow2(capacity)
}

/// A power of two from 32 on is a multiple of 32 and, up to 2^64, a divisor of
/// 2^64.
pub proof fn lemma_valid_capacity(capacity: int)
    requires
        valid_capacity(capacity),
        capacity <= u64::MAX,
    ensures
        capacity % 32 == 0,
        0x1_0000_0000_0000_0000int % capacity == 0,
{
    let k = lemma_exponent(capacity);
    assert(power2::pow2(64) == 0x1_0000_0000_0000_0000) by {
        power2::lemma2_to64();
    }
    assert(power2::pow2(5) == 32) by {
        power2::lemma2_to64();
    }
    if k < 5 {
        power2::lemma_pow2_strictly_increases(k, 5);
    }
    if k > 64 {
        power2::lemma_pow2_strictly_increases(64, k);
    }
    power2::lemma_pow2_adds(5, (k - 5) as nat);
    div_mod::lemma_mod_multiples_basic(power2::pow2((k - 5) as nat) as int, 32);
    mul::lemma_mul_is_commutative(power2::pow2(5) as int, power2::pow2((k - 5) as nat) as int);
    power2::lemma_pow2_adds(k, (64 - k) as nat);
    div_mod::lemma_mod_multiples_basic(power2::pow2((64 - k) as nat) as int, capacity);
    mul::lemma_mul_is_commutative(power2::pow2(k) as int, power2::pow2((64 - k) as nat) as int);
}

/// A power of two that is a `usize` leaves room for a trailer.
pub proof fn lemma_capacity_with_trailer(capacity: usize)
    requires
        valid_capacity(capacity as int),
    ensures
        capacity + 4096 <= usize::MAX,
{
    let k = lemma_exponent(capacity as int);
    power2::lemma2_to64();
    power2::lemma2_to64_rest();
    if k >= 64 {
        if k > 64 {
            power2::lemma_pow2_strictly_increases(64, k);
        }
    } else if k > 31 {
        power2::lemma_pow2_strictly_increases(31, k);
        if k > 32 {
            power2::lemma_pow2_strictly_increases(32, k);
        }
        if k < 63 {
            power2::lemma_pow2_strictly_increases(k, 63);
        }
    } else if k < 31 {
        power2::lemma_pow2_strictly_increases(k, 31);
    }
    assert(usize::MAX == 0xFFFF_FFFF || usize::MAX == 0xFFFF_FFFF_FFFF_FFFF);
}

/// The exponent of a power of two.
proof fn lemma_exponent(n: int) -> (k: nat)
    requires
        power2::is_pow2(n),
    ensures
        power2::pow2(k) == n,
{
    power2::is_pow2_equiv(n);
    let k = choose|i: nat| power::pow(2, i) == n;
    power2::lemma_pow2(k);
    k
}

/// Going `n` bytes on within the ring moves the index by `n`, and back to zero
/// at the end of the ring.
pub proof fn lemma_index_step(position: int, n: int, capacity: int)
    requires
        capacity > 0,
        0 <= n <= capacity - index_of(position, capacity),
    ensures
        index_of(position + n, capacity) == if n == capacity - index_of(position, capacity) {
            0
        } else {
            index_of(position, capacity) + n
        },
{
    let i = index_of(position, capacity);
    let q = position / capacity;
    div_mod::lemma_fundamental_div_mod(position, capacity);
    if i + n == capacity {
        assert(position + n == (q + 1) * capacity + 0) by (nonlinear_arith)
            requires
                position == capacity * q + i,
                i + n == capacity,
        ;
        div_mod::lemma_fundamental_div_mod_converse(position + n, capacity, q + 1, 0);
    } else {
        assert(position + n == q * capacity + (i + n)) by (nonlinear_arith)
            requires
                position == capacity * q + i,
        ;
        div_mod::lemma_fundamental_div_mod_converse(position + n, capacity, q, i + n);
    }
}

/// In a ring whose capacity is a multiple of the record alignment, a record
/// boundary has an index that is one too.
pub proof fn lemma_index_aligned(position: int, capacity: int)
    requires
        capacity > 0,
        capacity % 32 == 0,
        position % 32 == 0,
    ensures
        index_of(position, capacity) % 32 == 0,
        index_of(position, capacity) + 32 <= capacity,
{
    let i = index_of(position, capacity);
    let q = position / capacity;
    let m = capacity / 32;
    div_mod::lemma_fundamental_div_mod(position, capacity);
    assert(i == 32 * (position / 32 - m * q)) by (nonlinear_arith)
        requires
            position == capacity * q + i,
            capacity == 32 * m,
            position == 32 * (position / 32),
    ;
}

/// Two positions less than a ring apart stand for different bytes.
pub proof fn lemma_index_distinct(a: int, b: int, capacity: int)
    requires
        capacity > 0,
        a < b < a + capacity,
    ensures
        index_of(a, capacity) != index_of(b, capacity),
{
    if index_of(a, capacity) == index_of(b, capacity) {
        div_mod::lemma_fundamental_div_mod(a, capacity);
        div_mod::lemma_fundamental_div_mod(b, capacity);
        let d = b / capacity - a / capacity;
        assert(b - a == capacity * d) by (nonlinear_arith)
            requires
                b == capacity * (b / capacity) + index_of(b, capacity),
                a == capacity * (a / capacity) + index_of(a, capacity),
                index_of(a, capacity) == index_of(b, capacity),
                d == b / capacity - a / capacity,
        ;
        assert(false) by (nonlinear_arith)
            requires
                b - a == capacity * d,
                0 < b - a < capacity,
                capacity > 0,
        ;
    }
}

/// The wrapped sum of a position and a distance stands for the same byte as the
/// sum itself.
pub proof fn lemma_index_wraps(position: i64, n: int, capacity: int)
    requires
        valid_capacity(capacity),
        capacity <= u64::MAX,
        i64::MIN <= n <= i64::MAX,
    ensures
        index_of(position.wrapping_add(n as i64) as int, capacity) == index_of(
            position + n,
            capacity,
        ),
{
    lemma_valid_capacity(capacity);
    let whole = 0x1_0000_0000_0000_0000int;
    let wrapped = position.wrapping_add(n as i64) as int;
    if wrapped == position + n - whole {
        lemma_drop_multiple(position + n, -1, capacity);
    } else if wrapped == position + n + whole {
        lemma_drop_multiple(position + n, 1, capacity);
    }
}

/// Adding 2^64 some times over does not change a remainder.
proof fn lemma_drop_multiple(x: int, times: int, capacity: int)
    requires
        capacity > 0,
        0x1_0000_0000_0000_0000int % capacity == 0,
    ensures
        (x + times * 0x1_0000_0000_0000_0000int) % capacity == x % capacity,
{
    let whole = 0x1_0000_0000_0000_0000int;
    div_mod::lemma_fundamental_div_mod(whole, capacity);
    let m = times * (whole / capacity);
    assert(times * whole == m * capacity) by (nonlinear_arith)
        requires
            whole == capacity * (whole / capacity) + 0,
            m == times * (whole / capacity),
    ;
    div_mod::lemma_mod_multiples_vanish(m, x, capacity);
    mul::lemma_mul_is_commutative(m, capacity);
}

/// A position moved on by some bytes is that much farther from where it was seen
/// from and, where those bytes are whole records, on a record boundary still.
#[verifier::spinoff_prover]
pub proof fn lemma_moved_position(from: i64, position: i64, more: int)
    requires
        0 <= position.wrapping_sub(from),
        0 <= more,
        position.wrapping_sub(from) + more <= i64::MAX,
        more % 32 == 0,
        position as int % 32 == 0,
    ensures
        position.wrapping_add(more as i64).wrapping_sub(from) == position.wrapping_sub(from) + more,
        position.wrapping_add(more as i64) as int % 32 == 0,
        from as int % 32 == 0 ==> position.wrapping_sub(from) as int % 32 == 0,
{
    let whole = 0x1_0000_0000_0000_0000int;
    let behind = position.wrapping_sub(from) as int;
    let moved = position.wrapping_add(more as i64) as int;
    assert(more as i64 == more);
    assert(behind == position - from || behind == position - from + whole || behind == position
        - from - whole);
    assert(moved == position + more || moved == position + more - whole);
    let (a, b, c) = (position as int / 32, from as int / 32, more / 32);
    assert(position == 32 * a && more == 32 * c);
    assert(whole == 32 * 0x800_0000_0000_0000int);
}

/// Rounding up to the record alignment.
pub proof fn lemma_aligned(n: int)
    ensures
        n <= aligned(n) < n + 32,
        aligned(n) % 32 == 0,
{
}

/// Rounds a length up to the record alignment.
pub fn align_record(len: usize) -> (r: usize)
    requires
        len + RECORD_ALIGNMENT - 1 <= usize::MAX,
    ensures
        r == aligned(len as int),
{
    (len + (RECORD_ALIGNMENT - 1)) / RECORD_ALIGNMENT * RECORD_ALIGNMENT
}

/// Index in the ring that a position stands for. `mask` is the capacity less one.
pub fn masked_index(position: i64, mask: usize) -> (r: usize)
    requires
        mask < usize::MAX,
        valid_capacity(mask + 1),
    ensures
        r == index_of(position as int, mask + 1),
        r <= mask,
{
    #[verifier::truncate]
    let bits: u64 = position as u64;
    let wide_mask: u64 = mask as u64;
    let r: usize = (bits & wide_mask) as usize;
    proof {
        let capacity = mask + 1;
        let k = lemma_exponent(capacity);
        assert(power2::pow2(64) == 0x1_0000_0000_0000_0000) by {
            power2::lemma2_to64();
        }
        if k >= 64 {
            if k > 64 {
                power2::lemma_pow2_strictly_increases(64, k);
            }
            assert(false);
        }
        bits::lemma_u64_low_bits_mask_is_mod(bits, k);
        assert(bits & wide_mask == bits as int % capacity);
        lemma_valid_capacity(capacity);
        assert(bits == position || bits == position + 0x1_0000_0000_0000_0000) by {
            lemma_bits_of_position(position);
        }
        if bits != position {
            lemma_drop_multiple(position as int, 1, capacity);
        }
    }
    r
}

/// Whether a position is a multiple of the record alignment.
pub fn on_boundary(position: i64) -> (r: bool)
    ensures
        r == (position as int % 32 == 0),
{
    proof {
        reveal_with_fuel(power2::is_pow2, 6);
    }
    masked_index(position, RECORD_ALIGNMENT - 1) == 0
}

proof fn lemma_bits_of_position(position: i64)
    ensures
        (position as u64) == if position >= 0 {
            position as int
        } else {
            position + 0x1_0000_0000_0000_0000
        },
{
    assert((position as u64) == if position >= 0 {
        position as int
    } else {
        position + 0x1_0000_0000_0000_0000
    }) by (bit_vector);
}

/// A length is rounded up to the next multiple of 32.
pub proof fn law_records_are_aligned(len: usize, r: usize)
    requires
        call_ensures(align_record, (len,), r),
    ensures
        r % 32 == 0,
        len <= r < len + 32,
{
}

/// A position stands for its remainder by the ring's size.
pub proof fn law_position_wraps_around(position: i64, mask: usize, r: usize, boundary: bool)
    requires
        mask < usize::MAX,
        call_ensures(masked_index, (position, mask), r),
        call_ensures(on_boundary, (position,), boundary),
    ensures
        r == position as int % (mask + 1),
        boundary <==> position as int % 32 == 0,
{
}

} // verus!
