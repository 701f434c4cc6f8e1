//! Byte buffers of the `bytes` crate, with the operations that the framing code uses.

use bytes::{Buf, Bytes, BytesMut};
use vstd::prelude::*;

verus! {

/// `bytes::Bytes`: a shared, immutable run of bytes.
#[verifier::external_type_specification]
#[verifier::external_body]
pub struct ExBytes(Bytes);

/// `bytes::BytesMut`: a growable buffer of bytes.
#[verifier::external_type_specification]
#[verifier::external_body]
pub struct ExBytesMut(BytesMut);

/// The bytes that a `Bytes` holds.
pub uninterp spec fn bytes_of(b: Bytes) -> Seq<u8>;

/// The bytes that a `BytesMut` holds and that have not been consumed.
pub uninterp spec fn buf_of(b: BytesMut) -> Seq<u8>;

/// `Bytes::new`: the result holds no bytes.
#[verifier::external_body]
pub(crate) fn bytes_new() -> (r: Bytes)
    ensures
        bytes_of(r) == Seq::<u8>::empty(),
{
    Bytes::new()
}

/// `<Bytes as From<Vec<u8>>>::from`: the result holds the bytes of the vector, in order.
#[verifier::external_body]
pub(crate) fn bytes_from_vec(v: Vec<u8>) -> (r: Bytes)
    ensures
        bytes_of(r) == v@,
{
    Bytes::from(v)
}

/// `Bytes::len`: the number of bytes held.
#[verifier::external_body]
pub(crate) fn bytes_len(b: &Bytes) -> (r: usize)
    ensures
        r == bytes_of(*b).len(),
{
    b.len()
}

/// `<Bytes as Deref>::deref`: the bytes held, as a slice.
#[verifier::external_body]
pub(crate) fn bytes_slice(b: &Bytes) -> (r: &[u8])
    ensures
        r@ == bytes_of(*b),
{
    b
}

/// `<Bytes as Clone>::clone`: another handle to the same bytes.
pub assume_specification[ <Bytes as Clone>::clone ](b: &Bytes) -> (r: Bytes)
    ensures
        bytes_of(r) == bytes_of(*b),
;

/// `Bytes::slice`: the bytes from position `from` up to position `to`. The outside function
/// panics past the end, so such a range is excluded.
#[verifier::external_body]
pub(crate) fn bytes_range(b: &Bytes, from: usize, to: usize) -> (r: Bytes)
    requires
        from <= to <= bytes_of(*b).len(),
    ensures
        bytes_of(r) == bytes_of(*b).subrange(from as int, to as int),
{
    b.slice(from..to)
}

/// `BytesMut::new`: the buffer holds no bytes.
#[verifier::external_body]
pub(crate) fn buf_new() -> (r: BytesMut)
    ensures
        buf_of(r) == Seq::<u8>::empty(),
{
    BytesMut::new()
}

/// `<BytesMut as From<Bytes>>::from`: the buffer holds the same bytes.
#[verifier::external_body]
pub(crate) fn buf_from_bytes(b: Bytes) -> (r: BytesMut)
    ensures
        buf_of(r) == bytes_of(b),
{
    BytesMut::from(b)
}

/// `BytesMut::len`: the number of bytes held.
#[verifier::external_body]
pub(crate) fn buf_len(b: &BytesMut) -> (r: usize)
    ensures
        r == buf_of(*b).len(),
{
    b.len()
}

/// `<BytesMut as Deref>::deref`: the bytes held, as a slice.
#[verifier::external_body]
pub(crate) fn buf_slice(b: &BytesMut) -> (r: &[u8])
    ensures
        r@ == buf_of(*b),
{
    b
}

/// `BytesMut::extend_from_slice`: appends the slice. The outside function panics where the
/// capacity would overflow, so the total length is kept within an allocation's limit.
#[verifier::external_body]
pub(crate) fn buf_extend(b: &mut BytesMut, s: &[u8])
    requires
        buf_of(*old(b)).len() + s@.len() <= isize::MAX,
    ensures
        buf_of(*final(b)) == buf_of(*old(b)) + s@,
{
    b.extend_from_slice(s);
}

/// `<BytesMut as Buf>::advance`: drops the first `n` bytes. The outside function panics past
/// the end, so such a count is excluded.
#[verifier::external_body]
pub(crate) fn buf_advance(b: &mut BytesMut, n: usize)
    requires
        n <= buf_of(*old(b)).len(),
    ensures
        buf_of(*final(b)) == buf_of(*old(b)).skip(n as int),
{
    b.advance(n);
}

} // verus!
