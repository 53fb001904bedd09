//! Little-endian access to byte buffers.
//!
//! Every wire and shared-memory layout of the driver is little-endian. The
//! specification functions say which integer stands at an offset and which
//! bytes encode an integer; the executable functions read and write them.

use vstd::prelude::*;

verus! {

/// `s` with `b` written over it from offset `off` on.
pub open spec fn splice(s: Seq<u8>, off: int, b: Seq<u8>) -> Seq<u8> {
    Seq::new(
        s.len(),
        |i: int|
            if off <= i < off + b.len() {
                b[i - off]
            } else {
                s[i]
            },
    )
}

/// `n` zero bytes.
pub open spec fn zeros(n: nat) -> Seq<u8> {
    Seq::new(n, |i: int| 0u8)
}

/// The 16-bit integer that starts at `off`.
pub open spec fn u16_at(s: Seq<u8>, off: int) -> u16 {
    (s[off] + 0x100 * s[off + 1]) as u16
}

/// The 32-bit integer that starts at `off`.
#[verifier::opaque]
pub open spec fn u32_at(s: Seq<u8>, off: int) -> u32 {
    (s[off] + 0x100 * s[off + 1] + 0x1_0000 * s[off + 2] + 0x100_0000 * s[off + 3]) as u32
}

/// The 64-bit integer that starts at `off`.
pub open spec fn u64_at(s: Seq<u8>, off: int) -> u64 {
    (u32_at(s, off) + 0x1_0000_0000 * u32_at(s, off + 4)) as u64
}

/// The signed 32-bit integer that starts at `off`, in two's complement.
pub open spec fn i32_at(s: Seq<u8>, off: int) -> i32 {
    u32_at(s, off) as i32
}

/// The signed 64-bit integer that starts at `off`, in two's complement.
pub open spec fn i64_at(s: Seq<u8>, off: int) -> i64 {
    u64_at(s, off) as i64
}

/// The two bytes of `x`, least significant first.
pub open spec fn u16_le(x: u16) -> Seq<u8> {
    seq![(x % 0x100) as u8, (x / 0x100) as u8]
}

/// The four bytes of `x`, least significant first.
#[verifier::opaque]
pub open spec fn u32_le(x: u32) -> Seq<u8> {
    seq![
        (x % 0x100) as u8,
        ((x / 0x100) % 0x100) as u8,
        ((x / 0x1_0000) % 0x100) as u8,
        (x / 0x100_0000) as u8,
    ]
}

/// The eight bytes of `x`, least significant first.
pub open spec fn u64_le(x: u64) -> Seq<u8> {
    u32_le((x % 0x1_0000_0000) as u32) + u32_le((x / 0x1_0000_0000) as u32)
}

/// The four bytes of `x` in two's complement, least significant first.
pub open spec fn i32_le(x: i32) -> Seq<u8> {
    u32_le(x as u32)
}

/// The eight bytes of `x` in two's complement, least significant first.
pub open spec fn i64_le(x: i64) -> Seq<u8> {
    u64_le(x as u64)
}

/// A 32-bit integer is encoded as four bytes.
pub broadcast proof fn lemma_u32_le_len(x: u32)
    ensures
        #[trigger] u32_le(x).len() == 4,
{
    reveal(u32_le);
}

/// The integer at an offset is determined by its four bytes.
pub proof fn lemma_u32_at_same(s: Seq<u8>, t: Seq<u8>, off: int)
    requires
        forall|i: int| off <= i < off + 4 ==> s[i] == #[trigger] t[i],
    ensures
        u32_at(s, off) == u32_at(t, off),
{
    reveal(u32_at);
    assert(s[off] == t[off] && s[off + 1] == t[off + 1] && s[off + 2] == t[off + 2] && s[off + 3]
        == t[off + 3]);
}

/// Decoding at the place where a 16-bit integer was encoded gives it back.
pub proof fn lemma_u16_at_le(s: Seq<u8>, off: int, x: u16)
    requires
        s[off] == u16_le(x)[0],
        s[off + 1] == u16_le(x)[1],
    ensures
        u16_at(s, off) == x,
{
}

/// Decoding at the place where a 32-bit integer was encoded gives it back.
pub proof fn lemma_u32_at_le(s: Seq<u8>, off: int, x: u32)
    requires
        forall|i: int| 0 <= i < 4 ==> s[off + i] == #[trigger] u32_le(x)[i],
    ensures
        u32_at(s, off) == x,
{
    reveal(u32_at);
    reveal(u32_le);
    assert(s[off + 0] == u32_le(x)[0]);
    assert(s[off + 1] == u32_le(x)[1]);
    assert(s[off + 2] == u32_le(x)[2]);
    assert(s[off + 3] == u32_le(x)[3]);
}

/// Decoding at the place where a signed 32-bit integer was encoded gives it back.
pub proof fn lemma_i32_at_le(s: Seq<u8>, off: int, x: i32)
    requires
        forall|i: int| 0 <= i < 4 ==> s[off + i] == #[trigger] i32_le(x)[i],
    ensures
        i32_at(s, off) == x,
{
    assert forall|i: int| 0 <= i < 4 implies s[off + i] == #[trigger] u32_le(x as u32)[i] by {
        assert(s[off + i] == i32_le(x)[i]);
    }
    lemma_u32_at_le(s, off, x as u32);
    assert((x as u32) as i32 == x) by (bit_vector);
}

/// Decoding at the place where a 64-bit integer was encoded gives it back.
pub proof fn lemma_u64_at_le(s: Seq<u8>, off: int, x: u64)
    requires
        forall|i: int| 0 <= i < 8 ==> s[off + i] == #[trigger] u64_le(x)[i],
    ensures
        u64_at(s, off) == x,
{
    broadcast use lemma_u32_le_len;

    let lo = (x % 0x1_0000_0000) as u32;
    let hi = (x / 0x1_0000_0000) as u32;
    assert forall|i: int| 0 <= i < 4 implies s[off + i] == #[trigger] u32_le(lo)[i] by {
        assert(s[off + i] == u64_le(x)[i]);
    }
    assert forall|i: int| 0 <= i < 4 implies s[off + 4 + i] == #[trigger] u32_le(hi)[i] by {
        assert(s[off + (4 + i)] == u64_le(x)[4 + i]);
    }
    lemma_u32_at_le(s, off, lo);
    lemma_u32_at_le(s, off + 4, hi);
}

/// Decoding at the place where a signed 64-bit integer was encoded gives it back.
pub proof fn lemma_i64_at_le(s: Seq<u8>, off: int, x: i64)
    requires
        forall|i: int| 0 <= i < 8 ==> s[off + i] == #[trigger] i64_le(x)[i],
    ensures
        i64_at(s, off) == x,
{
    assert forall|i: int| 0 <= i < 8 implies s[off + i] == #[trigger] u64_le(x as u64)[i] by {
        assert(s[off + i] == i64_le(x)[i]);
    }
    lemma_u64_at_le(s, off, x as u64);
    assert((x as u64) as i64 == x) by (bit_vector);
}

/// The bytes at an offset are the encoding of the 16-bit integer that is read
/// there.
pub proof fn lemma_u16_le_at(s: Seq<u8>, off: int)
    ensures
        u16_le(u16_at(s, off)) == seq![s[off], s[off + 1]],
{
    assert(u16_le(u16_at(s, off)) =~= seq![s[off], s[off + 1]]);
}

/// The bytes at an offset are the encoding of the integer that is read there.
pub proof fn lemma_u32_le_at(s: Seq<u8>, off: int)
    ensures
        forall|i: int| 0 <= i < 4 ==> s[off + i] == #[trigger] u32_le(u32_at(s, off))[i],
{
    reveal(u32_at);
    reveal(u32_le);
    let x = u32_at(s, off);
    let (a, b, c, d) = (s[off], s[off + 1], s[off + 2], s[off + 3]);
    let q1 = b + 0x100 * c + 0x1_0000 * d;
    let q2 = c + 0x100 * d;
    assert(x == a + 0x100 * q1);
    assert(x % 0x100 == a && x / 0x100 == q1);
    assert(q1 == b + 0x100 * q2);
    assert(q1 % 0x100 == b && q1 / 0x100 == q2);
    assert(q2 % 0x100 == c && q2 / 0x100 == d);
    assert(x / 0x1_0000 == q2);
    assert(x / 0x100_0000 == d);
    assert(u32_le(x) =~= seq![a, b, c, d]);
}

/// The bytes at an offset are the encoding of the signed integer that is read there.
pub proof fn lemma_i32_le_at(s: Seq<u8>, off: int)
    ensures
        forall|i: int| 0 <= i < 4 ==> s[off + i] == #[trigger] i32_le(i32_at(s, off))[i],
{
    let u = u32_at(s, off);
    assert((u as i32) as u32 == u) by (bit_vector);
    lemma_u32_le_at(s, off);
    assert forall|i: int| 0 <= i < 4 implies s[off + i] == #[trigger] i32_le(
        i32_at(s, off),
    )[i] by {
        assert(s[off + i] == u32_le(u)[i]);
    }
}

/// The bytes at an offset are the encoding of the 64-bit integer that is read there.
pub proof fn lemma_u64_le_at(s: Seq<u8>, off: int)
    ensures
        forall|i: int| 0 <= i < 8 ==> s[off + i] == #[trigger] u64_le(u64_at(s, off))[i],
{
    broadcast use lemma_u32_le_len;

    let lo = u32_at(s, off);
    let hi = u32_at(s, off + 4);
    let x = u64_at(s, off);
    assert((x % 0x1_0000_0000) as u32 == lo);
    assert((x / 0x1_0000_0000) as u32 == hi);
    lemma_u32_le_at(s, off);
    lemma_u32_le_at(s, off + 4);
    assert forall|i: int| 0 <= i < 8 implies s[off + i] == #[trigger] u64_le(x)[i] by {
        if i < 4 {
            assert(s[off + i] == u32_le(lo)[i]);
        } else {
            assert(s[off + 4 + (i - 4)] == u32_le(hi)[i - 4]);
        }
    }
}

/// The bytes at an offset are the encoding of the signed 64-bit integer that is read there.
pub proof fn lemma_i64_le_at(s: Seq<u8>, off: int)
    ensures
        forall|i: int| 0 <= i < 8 ==> s[off + i] == #[trigger] i64_le(i64_at(s, off))[i],
{
    let u = u64_at(s, off);
    assert((u as i64) as u64 == u) by (bit_vector);
    lemma_u64_le_at(s, off);
    assert forall|i: int| 0 <= i < 8 implies s[off + i] == #[trigger] i64_le(
        i64_at(s, off),
    )[i] by {
        assert(s[off + i] == u64_le(u)[i]);
    }
}

/// Zero is encoded as zero bytes.
pub proof fn lemma_i64_le_zero()
    ensures
        i64_le(0) == zeros(8),
{
    broadcast use lemma_u32_le_len;

    reveal(u32_le);
    assert(0i64 as u64 == 0u64) by (bit_vector);
    assert(i64_le(0) =~= zeros(8));
}

/// Reads the unsigned 16-bit integer at `off`.
pub fn read_u16(buf: &[u8], off: usize) -> (x: u16)
    requires
        off + 2 <= buf@.len(),
    ensures
        x == u16_at(buf@, off as int),
{
    (buf[off] as u16) + 0x100 * (buf[off + 1] as u16)
}

/// Reads the unsigned 32-bit integer at `off`.
pub fn read_u32(buf: &[u8], off: usize) -> (x: u32)
    requires
        off + 4 <= buf@.len(),
    ensures
        x == u32_at(buf@, off as int),
{
    proof {
        reveal(u32_at);
    }
    (buf[off] as u32) + 0x100 * (buf[off + 1] as u32) + 0x1_0000 * (buf[off + 2] as u32)
        + 0x100_0000 * (buf[off + 3] as u32)
}

/// Reads the signed 32-bit integer at `off`.
pub fn read_i32(buf: &[u8], off: usize) -> (x: i32)
    requires
        off + 4 <= buf@.len(),
    ensures
        x == i32_at(buf@, off as int),
{
    #[verifier::truncate]
    let x: i32 = read_u32(buf, off) as i32;
    x
}

/// Reads the signed 64-bit integer at `off`.
pub fn read_i64(buf: &[u8], off: usize) -> (x: i64)
    requires
        off + 8 <= buf@.len(),
    ensures
        x == i64_at(buf@, off as int),
{
    assert(off + 8 <= buf.len());
    let lo: u64 = read_u32(buf, off) as u64;
    let hi: u64 = read_u32(buf, off + 4) as u64;
    #[verifier::truncate]
    let x: i64 = (lo + 0x1_0000_0000 * hi) as i64;
    x
}

/// Copies the `len` bytes from `off` on.
pub fn read_bytes(buf: &[u8], off: usize, len: usize) -> (r: Vec<u8>)
    requires
        off + len <= buf@.len(),
    ensures
        r@ == buf@.subrange(off as int, off + len),
{
    assert(off + len <= buf.len());
    let mut r: Vec<u8> = Vec::new();
    let mut i: usize = 0;
    while i < len
        invariant
            i <= len,
            off + len <= buf@.len(),
            off + len <= usize::MAX,
            r@ == buf@.subrange(off as int, off + i),
        decreases len - i,
    {
        r.push(buf[off + i]);
        i += 1;
        assert(r@ =~= buf@.subrange(off as int, off + i));
    }
    r
}

/// Writes `x` at `off`.
pub fn write_u16(buf: &mut [u8], off: usize, x: u16)
    requires
        off + 2 <= old(buf)@.len(),
    ensures
        final(buf)@ == splice(old(buf)@, off as int, u16_le(x)),
{
    buf[off] = (x % 0x100) as u8;
    buf[off + 1] = (x / 0x100) as u8;
    assert(buf@ =~= splice(old(buf)@, off as int, u16_le(x)));
}

/// Writes `x` at `off`.
pub fn write_u32(buf: &mut [u8], off: usize, x: u32)
    requires
        off + 4 <= old(buf)@.len(),
    ensures
        final(buf)@ == splice(old(buf)@, off as int, u32_le(x)),
{
    buf[off] = (x % 0x100) as u8;
    buf[off + 1] = ((x / 0x100) % 0x100) as u8;
    buf[off + 2] = ((x / 0x1_0000) % 0x100) as u8;
    buf[off + 3] = (x / 0x100_0000) as u8;
    proof {
        reveal(u32_le);
    }
    assert(buf@ =~= splice(old(buf)@, off as int, u32_le(x)));
}

/// Writes `x` at `off`.
pub fn write_i32(buf: &mut [u8], off: usize, x: i32)
    requires
        off + 4 <= old(buf)@.len(),
    ensures
        final(buf)@ == splice(old(buf)@, off as int, i32_le(x)),
{
    #[verifier::truncate]
    let bits: u32 = x as u32;
    write_u32(buf, off, bits);
}

/// Writes `x` at `off`.
pub fn write_i64(buf: &mut [u8], off: usize, x: i64)
    requires
        off + 8 <= old(buf)@.len(),
    ensures
        final(buf)@ == splice(old(buf)@, off as int, i64_le(x)),
{
    assert(off + 8 <= buf.len());
    #[verifier::truncate]
    let bits: u64 = x as u64;
    write_u32(buf, off, (bits % 0x1_0000_0000) as u32);
    write_u32(buf, off + 4, (bits / 0x1_0000_0000) as u32);
    proof {
        broadcast use lemma_u32_le_len;

    }
    assert(buf@ =~= splice(old(buf)@, off as int, i64_le(x)));
}

/// Writes the bytes of `src` at `off`.
pub fn write_bytes(buf: &mut [u8], off: usize, src: &[u8])
    requires
        off + src@.len() <= old(buf)@.len(),
    ensures
        final(buf)@ == splice(old(buf)@, off as int, src@),
{
    assert(off + src@.len() <= buf.len());
    let mut i: usize = 0;
    while i < src.len()
        invariant
            i <= src@.len(),
            off + src@.len() <= old(buf)@.len(),
            off + src@.len() <= usize::MAX,
            buf@ == splice(old(buf)@, off as int, src@.subrange(0, i as int)),
        decreases src@.len() - i,
    {
        buf[off + i] = src[i];
        i += 1;
        assert(buf@ =~= splice(old(buf)@, off as int, src@.subrange(0, i as int)));
    }
    assert(src@.subrange(0, i as int) =~= src@);
}

/// Writes `len` zero bytes at `off`.
pub fn write_zeros(buf: &mut [u8], off: usize, len: usize)
    requires
        off + len <= old(buf)@.len(),
    ensures
        final(buf)@ == splice(old(buf)@, off as int, zeros(len as nat)),
{
    assert(off + len <= buf.len());
    let mut i: usize = 0;
    while i < len
        invariant
            i <= len,
            off + len <= old(buf)@.len(),
            off + len <= usize::MAX,
            buf@ == splice(old(buf)@, off as int, zeros(i as nat)),
        decreases len - i,
    {
        buf[off + i] = 0;
        i += 1;
        assert(buf@ =~= splice(old(buf)@, off as int, zeros(i as nat)));
    }
}

/// Integers are read least significant byte first, signed ones in two's
/// complement.
pub proof fn law_integers_are_read_little_endian(
    buf: &[u8],
    off: usize,
    a: u16,
    b: u32,
    c: i32,
    d: i64,
)
    requires
        off + 8 <= buf@.len(),
        call_ensures(read_u16, (buf, off), a),
        call_ensures(read_u32, (buf, off), b),
        call_ensures(read_i32, (buf, off), c),
        call_ensures(read_i64, (buf, off), d),
    ensures
        ({
            let s = |i: int| buf@[off + i] as int;
            let half = s(0) + 0x100 * s(1) + 0x1_0000 * s(2) + 0x100_0000 * s(3);
            let upper = s(4) + 0x100 * s(5) + 0x1_0000 * s(6) + 0x100_0000 * s(7);
            let whole = half + 0x1_0000_0000 * upper;
            &&& a == s(0) + 0x100 * s(1)
            &&& b == half
            &&& c == if half < 0x8000_0000 {
                half
            } else {
                half - 0x1_0000_0000
            }
            &&& d == if whole < 0x8000_0000_0000_0000 {
                whole
            } else {
                whole - 0x1_0000_0000_0000_0000
            }
        }),
{
    reveal(u32_at);
    let lo = u32_at(buf@, off as int);
    let whole = u64_at(buf@, off as int);
    assert(lo as i32 == if lo < 0x8000_0000u32 {
        lo as int
    } else {
        lo - 0x1_0000_0000
    }) by (bit_vector);
    assert(whole as i64 == if whole < 0x8000_0000_0000_0000u64 {
        whole as int
    } else {
        whole - 0x1_0000_0000_0000_0000
    }) by (bit_vector);
}

/// What was written at a place in 64 bits is read from it, and no other byte
/// changes.
pub proof fn law_written_integer_is_read(
    before: Seq<u8>,
    after: &[u8],
    off: usize,
    x: i64,
    y: i64,
)
    requires
        off + 8 <= before.len(),
        exists|buf: &mut [u8]|
            (*buf)@ == before && (*final(buf))@ == after@ && #[trigger] call_ensures(
                write_i64,
                (buf, off, x),
                (),
            ),
        call_ensures(read_i64, (after, off), y),
    ensures
        y == x,
        after@.len() == before.len(),
        forall|k: int|
            0 <= k < before.len() && !(off <= k < off + 8) ==> #[trigger] after@[k] == before[k],
{
    broadcast use lemma_u32_le_len;

    assert forall|i: int| 0 <= i < 8 implies after@[off + i] == #[trigger] i64_le(x)[i] by {}
    lemma_i64_at_le(after@, off as int, x);
}

/// What was written at a place in 32 bits is read from it, and no other byte
/// changes.
pub proof fn law_written_short_integer_is_read(
    before: Seq<u8>,
    after: &[u8],
    off: usize,
    x: i32,
    y: i32,
)
    requires
        off + 4 <= before.len(),
        exists|buf: &mut [u8]|
            (*buf)@ == before && (*final(buf))@ == after@ && #[trigger] call_ensures(
                write_i32,
                (buf, off, x),
                (),
            ),
        call_ensures(read_i32, (after, off), y),
    ensures
        y == x,
        after@.len() == before.len(),
        forall|k: int|
            0 <= k < before.len() && !(off <= k < off + 4) ==> #[trigger] after@[k] == before[k],
{
    broadcast use lemma_u32_le_len;

    assert forall|i: int| 0 <= i < 4 implies after@[off + i] == #[trigger] i32_le(x)[i] by {}
    lemma_i32_at_le(after@, off as int, x);
}

/// Bytes are copied one for one, and no byte outside their place changes.
pub proof fn law_bytes_are_copied(
    before: Seq<u8>,
    after: &[u8],
    off: usize,
    src: &[u8],
    len: usize,
    r: Vec<u8>,
)
    requires
        off + src@.len() <= before.len(),
        len == src@.len(),
        exists|buf: &mut [u8]|
            (*buf)@ == before && (*final(buf))@ == after@ && #[trigger] call_ensures(
                write_bytes,
                (buf, off, src),
                (),
            ),
        call_ensures(read_bytes, (after, off, len), r),
    ensures
        r@ == src@,
        after@.len() == before.len(),
        forall|k: int|
            0 <= k < before.len() ==> #[trigger] after@[k] == if off <= k < off + src@.len() {
                src@[k - off]
            } else {
                before[k]
            },
{
    assert(r@ =~= src@);
}

/// Unsigned integers are written least significant byte first, and no other byte
/// changes.
pub proof fn law_unsigned_integers_are_written(
    before: Seq<u8>,
    short: Seq<u8>,
    long: Seq<u8>,
    off: usize,
    x: u16,
    y: u32,
)
    requires
        off + 4 <= before.len(),
        exists|buf: &mut [u8]|
            (*buf)@ == before && (*final(buf))@ == short && #[trigger] call_ensures(
                write_u16,
                (buf, off, x),
                (),
            ),
        exists|buf: &mut [u8]|
            (*buf)@ == before && (*final(buf))@ == long && #[trigger] call_ensures(
                write_u32,
                (buf, off, y),
                (),
            ),
    ensures
        short.len() == before.len(),
        short[off as int] + 0x100 * short[off + 1] == x,
        forall|k: int|
            0 <= k < before.len() && !(off <= k < off + 2) ==> #[trigger] short[k] == before[k],
        long.len() == before.len(),
        long[off as int] + 0x100 * long[off + 1] + 0x1_0000 * long[off + 2] + 0x100_0000 * long[off
            + 3] == y,
        forall|k: int|
            0 <= k < before.len() && !(off <= k < off + 4) ==> #[trigger] long[k] == before[k],
{
    broadcast use lemma_u32_le_len;

    reveal(u32_le);
}

/// Zeros fill their place, and no other byte changes.
pub proof fn law_zeros_are_written(before: Seq<u8>, after: Seq<u8>, off: usize, len: usize)
    requires
        off + len <= before.len(),
        exists|buf: &mut [u8]|
            (*buf)@ == before && (*final(buf))@ == after && #[trigger] call_ensures(
                write_zeros,
                (buf, off, len),
                (),
            ),
    ensures
        after.len() == before.len(),
        forall|k: int|
            0 <= k < before.len() ==> #[trigger] after[k] == if off <= k < off + len {
                0
            } else {
                before[k]
            },
{
}

} // verus!
