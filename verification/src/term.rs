//! Term arithmetic.
//!
//! A stream is cut into terms of equal length. Term ids wrap around, so they are
//! compared by wrapping difference.

use vstd::prelude::*;

verus! {

/// Number of term partitions that a log keeps.
pub const PARTITION_COUNT: usize = 4;

/// Upper bound (excluded) of a difference of two `i32` counters that counts as
/// "ahead".
pub const HALF_RANGE_I32: i32 = 0x3FFF_FFFF;

/// Upper bound (excluded) of a difference of two `i64` counters that counts as
/// "ahead".
pub const HALF_RANGE_I64: i64 = 0x3FFF_FFFF_FFFF_FFFF;

/// `diff` is that of a counter ahead of another: positive and less than half the
/// range.
pub open spec fn is_ahead_i32(diff: i32) -> bool {
    0 < diff < HALF_RANGE_I32
}

/// Absolute position in the stream of an offset in a term.
pub open spec fn position_of(
    term_id: i32,
    term_offset: u32,
    initial_term_id: i32,
    term_length: u32,
) -> int {
    term_id.wrapping_sub(initial_term_id) * term_length + term_offset
}

/// Absolute position in the stream of an offset in a term.
pub fn compute_position(
    term_id: i32,
    term_offset: u32,
    initial_term_id: i32,
    term_length: u32,
) -> (r: i64)
    ensures
        r == position_of(term_id, term_offset, initial_term_id, term_length),
{
    let terms: i64 = term_id.wrapping_sub(initial_term_id) as i64;
    let length: i64 = term_length as i64;
    assert(-0x8000_0000 * 0xFFFF_FFFF <= terms * length <= 0x7FFF_FFFF * 0xFFFF_FFFF)
        by (nonlinear_arith)
        requires
            -0x8000_0000 <= terms <= 0x7FFF_FFFF,
            0 <= length <= 0xFFFF_FFFF,
    ;
    terms * length + term_offset as i64
}

/// The next term starts where a term ends.
pub proof fn law_terms_are_contiguous(
    term_id: i32,
    initial_term_id: i32,
    term_length: u32,
)
    requires
        term_id.wrapping_sub(initial_term_id) < i32::MAX,
    ensures
        position_of(term_id.wrapping_add(1), 0, initial_term_id, term_length) == position_of(
            term_id,
            term_length,
            initial_term_id,
            term_length,
        ),
{
    let d = term_id.wrapping_sub(initial_term_id) as int;
    assert(term_id.wrapping_add(1).wrapping_sub(initial_term_id) == d + 1);
    assert((d + 1) * term_length == d * term_length + term_length) by (nonlinear_arith);
}

/// The position of an offset in a term is the offset behind all the terms that came
/// before, counted from the initial one.
pub proof fn law_position_counts_whole_terms(
    term_id: i32,
    term_offset: u32,
    initial_term_id: i32,
    term_length: u32,
    r: i64,
)
    requires
        call_ensures(
            compute_position,
            (term_id, term_offset, initial_term_id, term_length),
            r,
        ),
    ensures
        i32::MIN <= term_id - initial_term_id <= i32::MAX ==> r == (term_id - initial_term_id)
            * term_length + term_offset,
        term_id == initial_term_id ==> r == term_offset,
        r == term_id.wrapping_sub(initial_term_id) * term_length + term_offset,
{
}

} // verus!
