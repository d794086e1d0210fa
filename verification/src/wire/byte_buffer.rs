//! The growing buffer that messages are written into: `BytesMut` of the `bytes` crate.
use bytes::{BufMut, BytesMut};
use vstd::prelude::*;
use crate::wire::numbers::{i16_bytes, i32_bytes};

verus! {

/// The buffer of the `bytes` crate.
#[verifier::external_type_specification]
#[verifier::external_body]
pub struct ExBytesMut(BytesMut);

/// The bytes that a buffer holds.
pub uninterp spec fn buffered(buffer: BytesMut) -> Seq<u8>;

/// How many bytes a buffer can come to hold in any case. Growing may double what is allocated, and
/// no allocation is larger than `isize::MAX`.
pub open spec fn buffer_limit() -> int {
    isize::MAX as int / 2
}

/// `BytesMut::new` makes a buffer that holds nothing.
pub assume_specification[ BytesMut::new ]() -> (buffer: BytesMut)
    ensures
        buffered(buffer) == Seq::<u8>::empty(),
;

/// `BytesMut::with_capacity` makes a buffer that holds nothing. It panics on a capacity that no
/// allocation can have.
pub assume_specification[ BytesMut::with_capacity ](capacity: usize) -> (buffer: BytesMut)
    requires
        capacity <= isize::MAX,
    ensures
        buffered(buffer) == Seq::<u8>::empty(),
;

/// `BytesMut::len` counts the bytes that the buffer holds.
pub assume_specification[ BytesMut::len ](buffer: &BytesMut) -> (len: usize)
    ensures
        len == buffered(*buffer).len(),
;

/// Calls `BufMut::put_u8` of `BytesMut`, which appends the byte. It panics where the buffer cannot
/// grow any more.
#[verifier::external_body]
pub(crate) fn put_u8(buffer: &mut BytesMut, value: u8)
    requires
        buffered(*old(buffer)).len() + 1 <= buffer_limit(),
    ensures
        buffered(*final(buffer)) == buffered(*old(buffer)).push(value),
{
    buffer.put_u8(value)
}

/// Calls `BufMut::put_i16` of `BytesMut`, which appends the two bytes of the number, most
/// significant first. It panics where the buffer cannot grow any more.
#[verifier::external_body]
pub(crate) fn put_i16(buffer: &mut BytesMut, value: i16)
    requires
        buffered(*old(buffer)).len() + 2 <= buffer_limit(),
    ensures
        buffered(*final(buffer)) == buffered(*old(buffer)) + i16_bytes(value as int),
{
    buffer.put_i16(value)
}

/// Calls `BufMut::put_i32` of `BytesMut`, which appends the four bytes of the number, most
/// significant first. It panics where the buffer cannot grow any more.
#[verifier::external_body]
pub(crate) fn put_i32(buffer: &mut BytesMut, value: i32)
    requires
        buffered(*old(buffer)).len() + 4 <= buffer_limit(),
    ensures
        buffered(*final(buffer)) == buffered(*old(buffer)) + i32_bytes(value as int),
{
    buffer.put_i32(value)
}

/// Calls `BufMut::put` of `BytesMut`, which appends the bytes. It panics where the buffer cannot
/// grow any more.
#[verifier::external_body]
pub(crate) fn put(buffer: &mut BytesMut, bytes: &[u8])
    requires
        buffered(*old(buffer)).len() + bytes@.len() <= buffer_limit(),
    ensures
        buffered(*final(buffer)) == buffered(*old(buffer)) + bytes@,
{
    buffer.put(bytes)
}

/// Calls `Deref::deref` of `BytesMut`, which gives the bytes that the buffer holds.
#[verifier::external_body]
pub(crate) fn contents(buffer: &BytesMut) -> (bytes: &[u8])
    ensures
        bytes@ == buffered(*buffer),
{
    &buffer[..]
}

} // verus!
