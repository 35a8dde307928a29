//! Little-endian integers inside byte sequences.
//!
//! Every on-disk record is a run of unsigned integers stored least significant
//! byte first.  The functions here give that encoding as arithmetic on `int`,
//! so that a record's bytes can be computed by hand from its fields.
use vstd::prelude::*;

verus! {

/// The two bytes of `x`, least significant first.
pub open spec fn u16_le_bytes(x: u16) -> Seq<u8> {
    seq![(x % 256) as u8, (x / 256) as u8]
}

/// The four bytes of `x`, least significant first.
pub open spec fn u32_le_bytes(x: u32) -> Seq<u8> {
    seq![
        (x % 256) as u8,
        (x / 256 % 256) as u8,
        (x / 65536 % 256) as u8,
        (x / 16777216) as u8,
    ]
}

/// The eight bytes of `x`, least significant first.
pub open spec fn u64_le_bytes(x: u64) -> Seq<u8> {
    u32_le_bytes((x % 0x1_0000_0000) as u32) + u32_le_bytes((x / 0x1_0000_0000) as u32)
}

/// The number stored little-endian in the two bytes of `s` that start at `at`.
pub open spec fn le_u16(s: Seq<u8>, at: int) -> int {
    s[at] as int + 256 * (s[at + 1] as int)
}

/// The number stored little-endian in the four bytes of `s` that start at `at`.
pub open spec fn le_u32(s: Seq<u8>, at: int) -> int {
    s[at] as int + 256 * (s[at + 1] as int) + 65536 * (s[at + 2] as int) + 16777216 * (s[at
        + 3] as int)
}

/// The number stored little-endian in the eight bytes of `s` that start at `at`.
pub open spec fn le_u64(s: Seq<u8>, at: int) -> int {
    le_u32(s, at) + 0x1_0000_0000 * le_u32(s, at + 4)
}

/// Reading back what `u16_le_bytes` wrote gives the number again, wherever
/// the two bytes stand inside a longer sequence.
pub proof fn lemma_u16_roundtrip(before: Seq<u8>, x: u16, after: Seq<u8>)
    ensures
        le_u16(before + u16_le_bytes(x) + after, before.len() as int) == x,
{
    let s = before + u16_le_bytes(x) + after;
    let at = before.len() as int;
    assert(s[at] == u16_le_bytes(x)[0]);
    assert(s[at + 1] == u16_le_bytes(x)[1]);
}

/// Reading back what `u32_le_bytes` wrote gives the number again, wherever
/// the four bytes stand inside a longer sequence.
pub proof fn lemma_u32_roundtrip(before: Seq<u8>, x: u32, after: Seq<u8>)
    ensures
        le_u32(before + u32_le_bytes(x) + after, before.len() as int) == x,
{
    let s = before + u32_le_bytes(x) + after;
    let at = before.len() as int;
    assert(s[at] == u32_le_bytes(x)[0]);
    assert(s[at + 1] == u32_le_bytes(x)[1]);
    assert(s[at + 2] == u32_le_bytes(x)[2]);
    assert(s[at + 3] == u32_le_bytes(x)[3]);
}

/// Reading back what `u64_le_bytes` wrote gives the number again, wherever
/// the eight bytes stand inside a longer sequence.
pub proof fn lemma_u64_roundtrip(before: Seq<u8>, x: u64, after: Seq<u8>)
    ensures
        le_u64(before + u64_le_bytes(x) + after, before.len() as int) == x,
{
    let lo = (x % 0x1_0000_0000) as u32;
    let hi = (x / 0x1_0000_0000) as u32;
    let s = before + u64_le_bytes(x) + after;
    let at = before.len() as int;
    assert(s =~= before + u32_le_bytes(lo) + (u32_le_bytes(hi) + after));
    lemma_u32_roundtrip(before, lo, u32_le_bytes(hi) + after);
    assert(s =~= (before + u32_le_bytes(lo)) + u32_le_bytes(hi) + after);
    lemma_u32_roundtrip(before + u32_le_bytes(lo), hi, after);
}

/// The digits of a number written in base 256 are found again by dividing.
proof fn lemma_base256_digits(b0: int, b1: int, b2: int, b3: int)
    requires
        0 <= b0 < 256,
        0 <= b1 < 256,
        0 <= b2 < 256,
        0 <= b3 < 256,
    ensures
        ({
            let x = b0 + 256 * b1 + 65536 * b2 + 16777216 * b3;
            &&& 0 <= x <= u32::MAX
            &&& x % 256 == b0
            &&& x / 256 % 256 == b1
            &&& x / 65536 % 256 == b2
            &&& x / 16777216 == b3
        }),
{
    let x = b0 + 256 * b1 + 65536 * b2 + 16777216 * b3;
    let x1 = b1 + 256 * b2 + 65536 * b3;
    let x2 = b2 + 256 * b3;
    assert(x == b0 + 256 * x1);
    assert(x / 256 == x1 && x % 256 == b0);
    assert(x1 == b1 + 256 * x2);
    assert(x1 / 256 == x2 && x1 % 256 == b1);
    assert(x / 65536 == x2) by {
        assert(x == (b0 + 256 * b1) + 65536 * x2);
    }
    assert(x2 / 256 == b3 && x2 % 256 == b2);
    assert(x / 16777216 == b3) by {
        assert(x == (b0 + 256 * b1 + 65536 * b2) + 16777216 * b3);
    }
}

/// Writing the number read from four bytes gives those four bytes again.
pub proof fn lemma_u32_bytes_of_read(s: Seq<u8>, at: int)
    requires
        0 <= at,
        at + 4 <= s.len(),
    ensures
        0 <= le_u32(s, at) <= u32::MAX,
        u32_le_bytes(le_u32(s, at) as u32) == s.subrange(at, at + 4),
{
    lemma_base256_digits(s[at] as int, s[at + 1] as int, s[at + 2] as int, s[at + 3] as int);
    assert(u32_le_bytes(le_u32(s, at) as u32) =~= s.subrange(at, at + 4));
}

/// Writing the number read from two bytes gives those two bytes again.
pub proof fn lemma_u16_bytes_of_read(s: Seq<u8>, at: int)
    requires
        0 <= at,
        at + 2 <= s.len(),
    ensures
        0 <= le_u16(s, at) <= u16::MAX,
        u16_le_bytes(le_u16(s, at) as u16) == s.subrange(at, at + 2),
{
    assert(u16_le_bytes(le_u16(s, at) as u16) =~= s.subrange(at, at + 2));
}

/// Writing the number read from eight bytes gives those eight bytes again.
pub proof fn lemma_u64_bytes_of_read(s: Seq<u8>, at: int)
    requires
        0 <= at,
        at + 8 <= s.len(),
    ensures
        0 <= le_u64(s, at) <= u64::MAX,
        u64_le_bytes(le_u64(s, at) as u64) == s.subrange(at, at + 8),
{
    lemma_u32_bytes_of_read(s, at);
    lemma_u32_bytes_of_read(s, at + 4);
    let lo = le_u32(s, at);
    let hi = le_u32(s, at + 4);
    let x = le_u64(s, at) as u64;
    assert(x == lo + 0x1_0000_0000 * hi);
    assert(x % 0x1_0000_0000 == lo && x / 0x1_0000_0000 == hi);
    assert(s.subrange(at, at + 8) =~= s.subrange(at, at + 4) + s.subrange(at + 4, at + 8));
}

/// Reads the two bytes at `at` as a little-endian number.
pub fn read_u16(buf: &[u8], at: usize) -> (x: u16)
    requires
        at + 2 <= buf@.len(),
    ensures
        x == le_u16(buf@, at as int),
{
    let b0: u16 = buf[at] as u16;
    let b1: u16 = buf[at + 1] as u16;
    b0 + 256 * b1
}

/// Reads the four bytes at `at` as a little-endian number.
pub fn read_u32(buf: &[u8], at: usize) -> (x: u32)
    requires
        at + 4 <= buf@.len(),
    ensures
        x == le_u32(buf@, at as int),
{
    let b0: u32 = buf[at] as u32;
    let b1: u32 = buf[at + 1] as u32;
    let b2: u32 = buf[at + 2] as u32;
    let b3: u32 = buf[at + 3] as u32;
    b0 + 256 * b1 + 65536 * b2 + 16777216 * b3
}

/// Reads the eight bytes at `at` as a little-endian number.
pub fn read_u64(buf: &[u8], at: usize) -> (x: u64)
    requires
        at + 8 <= buf@.len(),
    ensures
        x == le_u64(buf@, at as int),
{
    let n: usize = buf.len();
    let lo: u64 = read_u32(buf, at) as u64;
    let hi: u64 = read_u32(buf, at + 4) as u64;
    lo + 0x1_0000_0000 * hi
}

/// Appends the two bytes of `x` to `out`.
pub fn push_u16(out: &mut Vec<u8>, x: u16)
    ensures
        final(out)@ == old(out)@ + u16_le_bytes(x),
{
    out.push((x % 256) as u8);
    out.push((x / 256) as u8);
    assert(out@ =~= old(out)@ + u16_le_bytes(x));
}

/// Appends the four bytes of `x` to `out`.
pub fn push_u32(out: &mut Vec<u8>, x: u32)
    ensures
        final(out)@ == old(out)@ + u32_le_bytes(x),
{
    out.push((x % 256) as u8);
    out.push((x / 256 % 256) as u8);
    out.push((x / 65536 % 256) as u8);
    out.push((x / 16777216) as u8);
    assert(out@ =~= old(out)@ + u32_le_bytes(x));
}

/// Appends the eight bytes of `x` to `out`.
pub fn push_u64(out: &mut Vec<u8>, x: u64)
    ensures
        final(out)@ == old(out)@ + u64_le_bytes(x),
{
    let lo: u32 = (x % 0x1_0000_0000) as u32;
    let hi: u32 = (x / 0x1_0000_0000) as u32;
    push_u32(out, lo);
    push_u32(out, hi);
    assert(out@ =~= old(out)@ + u64_le_bytes(x));
}

} // verus!
