//! Runs of bytes, from `bytes`.

use bytes::{Bytes, BytesMut};
use vstd::prelude::*;

verus! {

/// `bytes::Bytes`, a shared immutable run of bytes.
#[verifier::external_type_specification]
#[verifier::external_body]
pub struct ExBytes(bytes::Bytes);

/// `bytes::BytesMut`, a growable run of bytes with one owner.
#[verifier::external_type_specification]
#[verifier::external_body]
pub struct ExBytesMut(bytes::BytesMut);

/// The bytes that a [`Bytes`] holds.
pub uninterp spec fn bytes_view(b: Bytes) -> Seq<u8>;

/// The bytes that a [`BytesMut`] holds.
pub uninterp spec fn buffer_view(b: BytesMut) -> Seq<u8>;

/// Calls `Bytes::from` on a `Vec<u8>`: the bytes are those of the vector.
#[verifier::external_body]
pub(crate) fn bytes_from_vec(v: Vec<u8>) -> (b: Bytes)
    ensures
        bytes_view(b) == v@,
{
    Bytes::from(v)
}

/// Calls `Bytes::copy_from_slice`: the bytes are those of the slice.
#[verifier::external_body]
pub(crate) fn bytes_from_slice(s: &[u8]) -> (b: Bytes)
    ensures
        bytes_view(b) == s@,
{
    Bytes::copy_from_slice(s)
}

/// Calls `Bytes::clone`: the clone holds the same bytes.
#[verifier::external_body]
pub(crate) fn bytes_clone(b: &Bytes) -> (r: Bytes)
    ensures
        bytes_view(r) == bytes_view(*b),
{
    b.clone()
}

/// Calls `Bytes::deref`: the slice shows the bytes held. Like every slice, it
/// spans at most `isize::MAX` bytes.
#[verifier::external_body]
pub(crate) fn bytes_slice(b: &Bytes) -> (s: &[u8])
    ensures
        s@ == bytes_view(*b),
        s@.len() <= isize::MAX,
{
    b
}

/// Calls `BytesMut::zeroed`: the buffer holds `len` zero bytes. A length past
/// `isize::MAX` makes the call panic.
#[verifier::external_body]
pub(crate) fn buffer_zeroed(len: usize) -> (b: BytesMut)
    requires
        len <= isize::MAX,
    ensures
        buffer_view(b) == Seq::new(len as nat, |i: int| 0u8),
{
    BytesMut::zeroed(len)
}

/// Calls `BytesMut::with_capacity`: the buffer is empty. A capacity past
/// `isize::MAX` makes the call panic.
#[verifier::external_body]
pub(crate) fn buffer_with_capacity(capacity: usize) -> (b: BytesMut)
    requires
        capacity <= isize::MAX,
    ensures
        buffer_view(b) == Seq::<u8>::empty(),
{
    BytesMut::with_capacity(capacity)
}

/// Calls `BytesMut::extend_from_slice`: the bytes of the slice are appended. A
/// buffer that would grow past `isize::MAX` makes the call panic.
#[verifier::external_body]
pub(crate) fn buffer_extend(b: &mut BytesMut, s: &[u8])
    requires
        buffer_view(*old(b)).len() + s@.len() <= isize::MAX,
    ensures
        buffer_view(*final(b)) == buffer_view(*old(b)) + s@,
{
    b.extend_from_slice(s)
}

/// Calls `BytesMut::resize` to grow a buffer: it is filled up with `value` to
/// `len` bytes. A length past `isize::MAX` makes the call panic.
#[verifier::external_body]
pub(crate) fn buffer_grow(b: &mut BytesMut, len: usize, value: u8)
    requires
        buffer_view(*old(b)).len() <= len <= isize::MAX,
    ensures
        buffer_view(*final(b)) == buffer_view(*old(b)) + Seq::new(
            (len - buffer_view(*old(b)).len()) as nat,
            |i: int| value,
        ),
{
    b.resize(len, value)
}

/// Calls `BytesMut::deref`: the slice shows the bytes held.
#[verifier::external_body]
pub(crate) fn buffer_slice(b: &BytesMut) -> (s: &[u8])
    ensures
        s@ == buffer_view(*b),
{
    b
}

/// Calls `BytesMut::deref_mut`, and copies `s` over the bytes from `from` up to
/// `to`; the others stay.
#[verifier::external_body]
pub(crate) fn buffer_overwrite(b: &mut BytesMut, from: usize, to: usize, s: &[u8])
    requires
        from <= to <= buffer_view(*old(b)).len(),
        to - from == s@.len(),
    ensures
        buffer_view(*final(b)) == buffer_view(*old(b)).take(from as int) + s@ + buffer_view(
            *old(b),
        ).skip(to as int),
{
    b[from..to].copy_from_slice(s)
}

/// Calls `BytesMut::freeze`: the bytes held stay the same.
#[verifier::external_body]
pub(crate) fn buffer_freeze(b: BytesMut) -> (r: Bytes)
    ensures
        bytes_view(r) == buffer_view(b),
{
    b.freeze()
}

} // verus!
