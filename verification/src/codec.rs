//! Fixed-width integers as bytes.

use byteorder::{BigEndian, ByteOrder};
use vstd::prelude::*;

verus! {

/// The four bytes of `x`, least significant first.
pub open spec fn le32(x: u32) -> Seq<u8> {
    seq![
        (x % 256) as u8,
        (x / 256 % 256) as u8,
        (x / 65536 % 256) as u8,
        (x / 16777216) as u8,
    ]
}

/// The number whose four bytes, least significant first, start at position `at` of `s`.
pub open spec fn le32_at(s: Seq<u8>, at: int) -> u32 {
    (s[at] + 256 * s[at + 1] + 65536 * s[at + 2] + 16777216 * s[at + 3]) as u32
}

/// The eight bytes of `x`, least significant first.
pub open spec fn le64(x: u64) -> Seq<u8> {
    le32((x % 0x1_0000_0000) as u32) + le32((x / 0x1_0000_0000) as u32)
}

/// The number whose eight bytes, least significant first, start at position `at` of `s`.
pub open spec fn le64_at(s: Seq<u8>, at: int) -> u64 {
    (le32_at(s, at) + 0x1_0000_0000 * le32_at(s, at + 4)) as u64
}

/// The number whose two bytes, most significant first, start at position `at` of `s`.
pub open spec fn be16_at(s: Seq<u8>, at: int) -> u16 {
    (256 * s[at] + s[at + 1]) as u16
}

/// The number whose four bytes, most significant first, start at position `at` of `s`.
pub open spec fn be32_at(s: Seq<u8>, at: int) -> u32 {
    (16777216 * s[at] + 65536 * s[at + 1] + 256 * s[at + 2] + s[at + 3]) as u32
}

/// `<BigEndian as ByteOrder>::read_u16` of `byteorder`, on the bytes from position `at` on: the
/// first is the more significant.
#[verifier::external_body]
pub(crate) fn read_u16_be(s: &[u8], at: usize) -> (r: u16)
    requires
        at + 2 <= s@.len(),
    ensures
        r == be16_at(s@, at as int),
{
    BigEndian::read_u16(&s[at..])
}

/// `<BigEndian as ByteOrder>::read_u32` of `byteorder`, on the bytes from position `at` on: the
/// first is the most significant.
#[verifier::external_body]
pub(crate) fn read_u32_be(s: &[u8], at: usize) -> (r: u32)
    requires
        at + 4 <= s@.len(),
    ensures
        r == be32_at(s@, at as int),
{
    BigEndian::read_u32(&s[at..])
}

/// Reading back the four bytes of a number gives that number.
pub proof fn le32_reads_back(x: u32, s: Seq<u8>, at: int)
    requires
        0 <= at,
        at + 4 <= s.len(),
        s.subrange(at, at + 4) == le32(x),
    ensures
        le32_at(s, at) == x,
{
    let t = s.subrange(at, at + 4);
    assert(s[at] == t[0] && s[at + 1] == t[1] && s[at + 2] == t[2] && s[at + 3] == t[3]);
}

/// Reading back the eight bytes of a number gives that number.
pub proof fn le64_reads_back(x: u64, s: Seq<u8>, at: int)
    requires
        0 <= at,
        at + 8 <= s.len(),
        s.subrange(at, at + 8) == le64(x),
    ensures
        le64_at(s, at) == x,
{
    let t = s.subrange(at, at + 8);
    let lo = (x % 0x1_0000_0000) as u32;
    let hi = (x / 0x1_0000_0000) as u32;
    assert(s.subrange(at, at + 4) =~= t.take(4));
    assert(s.subrange(at + 4, at + 8) =~= t.skip(4));
    assert(le64(x).take(4) =~= le32(lo));
    assert(le64(x).skip(4) =~= le32(hi));
    le32_reads_back(lo, s, at);
    le32_reads_back(hi, s, at + 4);
}

/// The four bytes of the number read at a position are the bytes that stand there.
pub proof fn le32_of_read(s: Seq<u8>, at: int)
    requires
        0 <= at,
        at + 4 <= s.len(),
    ensures
        le32(le32_at(s, at)) == s.subrange(at, at + 4),
{
    let a = s[at] as int;
    let b = s[at + 1] as int;
    let c = s[at + 2] as int;
    let d = s[at + 3] as int;
    let x = a + 256 * b + 65536 * c + 16777216 * d;
    assert(x % 256 == a);
    assert(x / 256 == b + 256 * c + 65536 * d);
    assert(x / 65536 == c + 256 * d);
    assert(x / 16777216 == d);
    assert(le32(le32_at(s, at)) =~= s.subrange(at, at + 4));
}

/// The four bytes of `x`, least significant first.
pub fn u32_le(x: u32) -> (r: Vec<u8>)
    ensures
        r@ == le32(x),
{
    let mut v: Vec<u8> = Vec::with_capacity(4);
    v.push((x % 256) as u8);
    v.push((x / 256 % 256) as u8);
    v.push((x / 65536 % 256) as u8);
    v.push((x / 16777216) as u8);
    assert(v@ =~= le32(x));
    v
}

/// The eight bytes of `x`, least significant first.
pub fn u64_le(x: u64) -> (r: Vec<u8>)
    ensures
        r@ == le64(x),
{
    let mut v: Vec<u8> = u32_le((x % 0x1_0000_0000) as u32);
    let mut hi: Vec<u8> = u32_le((x / 0x1_0000_0000) as u32);
    v.append(&mut hi);
    v
}

/// Reads the number whose four bytes, least significant first, start at `at`.
pub fn read_u32_le(s: &[u8], at: usize) -> (r: u32)
    requires
        at + 4 <= s@.len(),
    ensures
        r == le32_at(s@, at as int),
{
    let a: u32 = s[at] as u32;
    let b: u32 = s[at + 1] as u32;
    let c: u32 = s[at + 2] as u32;
    let d: u32 = s[at + 3] as u32;
    a + 256 * b + 65536 * c + 16777216 * d
}

/// The bytes of a number are its digits in base 256, the least significant first; read with the
/// most significant first they are another way round.
pub proof fn least_significant_byte_comes_first(x: u32, y: u64, s: Seq<u8>)
    requires
        s.len() >= 4,
    ensures
        le32(x).len() == 4,
        le32(x)[0] == x % 256,
        le32(x)[1] == x / 256 % 256,
        le32(x)[2] == x / 65536 % 256,
        le32(x)[3] == x / 16777216,
        le64(y).len() == 8,
        le64(y)[0] == y % 256,
        le64(y)[7] == y / 0x100_0000_0000_0000,
        be16_at(s, 0) == 256 * s[0] + s[1],
        be32_at(s, 0) == 16777216 * s[0] + 65536 * s[1] + 256 * s[2] + s[3],
{
}

} // verus!
