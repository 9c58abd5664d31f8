//! The byte buffers of the decoder and encoder: `bytes::BytesMut`, seen
//! through the sequence of bytes it holds.

use bytes::{Buf, BytesMut};
use vstd::prelude::*;

verus! {

#[verifier::external_type_specification]
#[verifier::external_body]
pub struct ExBytesMut(BytesMut);

/// The bytes that a buffer holds, in order.
pub uninterp spec fn bytes_of(b: BytesMut) -> Seq<u8>;

/// Relies on `BytesMut::new`: a new buffer holds no bytes.
#[verifier::external_body]
pub(crate) fn buf_new() -> (r: BytesMut)
    ensures
        bytes_of(r) == Seq::<u8>::empty(),
{
    BytesMut::new()
}

/// Relies on `BytesMut::len`: the number of bytes held.
#[verifier::external_body]
pub(crate) fn buf_len(b: &BytesMut) -> (r: usize)
    ensures
        r == bytes_of(*b).len(),
{
    b.len()
}

/// Relies on `BytesMut::extend_from_slice`: the bytes of `s` are appended.
/// It grows the allocation through `Vec::reserve`, which panics past
/// `isize::MAX` bytes: hence the bound.
#[verifier::external_body]
pub(crate) fn buf_extend(b: &mut BytesMut, s: &[u8])
    requires
        bytes_of(*old(b)).len() + s@.len() <= isize::MAX,
    ensures
        bytes_of(*final(b)) == bytes_of(*old(b)) + s@,
{
    b.extend_from_slice(s)
}

/// Relies on `BytesMut::split_to`: the first `at` bytes are removed and
/// returned (copied into a `Vec`), the rest stay; it panics only if `at`
/// exceeds the length.
#[verifier::external_body]
pub(crate) fn buf_take_front(b: &mut BytesMut, at: usize) -> (r: Vec<u8>)
    requires
        at <= bytes_of(*old(b)).len(),
    ensures
        r@ == bytes_of(*old(b)).take(at as int),
        bytes_of(*final(b)) == bytes_of(*old(b)).skip(at as int),
{
    b.split_to(at).to_vec()
}

/// Relies on `Buf::advance` for `BytesMut`: the first `cnt` bytes are
/// dropped; it panics only if `cnt` exceeds the length.
#[verifier::external_body]
pub(crate) fn buf_advance(b: &mut BytesMut, cnt: usize)
    requires
        cnt <= bytes_of(*old(b)).len(),
    ensures
        bytes_of(*final(b)) == bytes_of(*old(b)).skip(cnt as int),
{
    b.advance(cnt)
}

/// Relies on `Deref` for `BytesMut`: the held bytes as a slice.
#[verifier::external_body]
pub(crate) fn buf_bytes(b: &BytesMut) -> (r: &[u8])
    ensures
        r@ == bytes_of(*b),
{
    b
}

} // verus!
