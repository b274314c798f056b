//! Byte buffers of the `bytes` crate, and the integers of the TLS presentation
//! language that are written to and read from them.
//!
//! What the crate's buffers hold, and what its functions do with it, is stated
//! here and not proved.

use bytes::{Bytes, BytesMut};

use vstd::prelude::*;

verus! {

/// `bytes::Bytes`, a shared immutable buffer.
#[verifier::external_type_specification]
#[verifier::external_body]
pub struct ExBytes(bytes::Bytes);

/// `bytes::BytesMut`, a growing buffer.
#[verifier::external_type_specification]
#[verifier::external_body]
pub struct ExBytesMut(bytes::BytesMut);

/// The bytes that a `Bytes` holds.
pub uninterp spec fn bytes_contents(buffer: bytes::Bytes) -> Seq<u8>;

/// The bytes that a `BytesMut` holds.
pub uninterp spec fn bytes_mut_contents(buffer: bytes::BytesMut) -> Seq<u8>;

/// `Bytes::copy_from_slice`: a buffer that holds a copy of the slice.
pub assume_specification[ bytes::Bytes::copy_from_slice ](data: &[u8]) -> (buffer: bytes::Bytes)
    ensures
        bytes_contents(buffer) == data@,
;

/// `Bytes::split_to`: the first `at` bytes leave the buffer and are returned; it
/// panics if there are fewer.
pub assume_specification[ bytes::Bytes::split_to ](
    buffer: &mut bytes::Bytes,
    at: usize,
) -> (head: bytes::Bytes)
    requires
        at <= bytes_contents(*old(buffer)).len(),
    ensures
        bytes_contents(head) == bytes_contents(*old(buffer)).take(at as int),
        bytes_contents(*final(buffer)) == bytes_contents(*old(buffer)).skip(at as int),
;

/// `BytesMut::new`: an empty buffer.
pub assume_specification[ bytes::BytesMut::new ]() -> (buffer: bytes::BytesMut)
    ensures
        bytes_mut_contents(buffer) == Seq::<u8>::empty(),
;

/// `BytesMut::len`: the number of bytes in the buffer.
pub assume_specification[ bytes::BytesMut::len ](buffer: &bytes::BytesMut) -> (len: usize)
    ensures
        len == bytes_mut_contents(*buffer).len(),
;

/// `BytesMut::extend_from_slice`: appends the slice to the buffer; it panics if
/// the buffer, which may take twice the room that it needs, would be larger than an
/// allocation can be.
pub assume_specification[ bytes::BytesMut::extend_from_slice ](
    buffer: &mut bytes::BytesMut,
    extend: &[u8],
)
    requires
        bytes_mut_contents(*old(buffer)).len() + extend@.len() <= isize::MAX / 2,
    ensures
        bytes_mut_contents(*final(buffer)) == bytes_mut_contents(*old(buffer)) + extend@,
;

/// `BytesMut::freeze`: the same bytes in an immutable buffer.
pub assume_specification[ bytes::BytesMut::freeze ](buffer: bytes::BytesMut) -> (frozen: bytes::Bytes)
    ensures
        bytes_contents(frozen) == bytes_mut_contents(buffer),
;

/// The `Deref` of `Bytes` to a slice: the bytes that the buffer holds.
#[verifier::external_body]
pub(crate) fn as_slice(buffer: &Bytes) -> (slice: &[u8])
    ensures
        slice@ == bytes_contents(*buffer),
{
    buffer
}

/// A 16 bit integer in network byte order.
pub open spec fn be16(value: int) -> Seq<u8> {
    seq![(value / 0x100 % 0x100) as u8, (value % 0x100) as u8]
}

/// The low 24 bits of an integer in network byte order.
pub open spec fn be24(value: int) -> Seq<u8> {
    seq![
        (value / 0x10000 % 0x100) as u8,
        (value / 0x100 % 0x100) as u8,
        (value % 0x100) as u8,
    ]
}

/// The low 48 bits of an integer in network byte order.
pub open spec fn be48(value: int) -> Seq<u8> {
    be24(value / 0x1000000) + be24(value % 0x1000000)
}

/// The 16 bit integer at `at`.
pub open spec fn read16(data: Seq<u8>, at: int) -> int {
    data[at] * 0x100 + data[at + 1]
}

/// The 24 bit integer at `at`.
pub open spec fn read24(data: Seq<u8>, at: int) -> int {
    data[at] * 0x10000 + data[at + 1] * 0x100 + data[at + 2]
}

/// The 48 bit integer at `at`.
pub open spec fn read48(data: Seq<u8>, at: int) -> int {
    read24(data, at) * 0x1000000 + read24(data, at + 3)
}

/// Appends one byte.
pub(crate) fn put8(buffer: &mut BytesMut, value: u8)
    requires
        bytes_mut_contents(*old(buffer)).len() + 1 <= isize::MAX / 2,
    ensures
        bytes_mut_contents(*final(buffer)) == bytes_mut_contents(*old(buffer)) + seq![value],
{
    let octets: [u8; 1] = [value];
    buffer.extend_from_slice(octets.as_slice());
    assert(octets@ =~= seq![value]);
}

/// Appends a 16 bit integer.
pub(crate) fn put16(buffer: &mut BytesMut, value: u16)
    requires
        bytes_mut_contents(*old(buffer)).len() + 2 <= isize::MAX / 2,
    ensures
        bytes_mut_contents(*final(buffer)) == bytes_mut_contents(*old(buffer)) + be16(value as int),
{
    let octets: [u8; 2] = [(value / 0x100) as u8, (value % 0x100) as u8];
    buffer.extend_from_slice(octets.as_slice());
    assert(octets@ =~= be16(value as int));
}

/// Appends the low 24 bits of an integer.
pub(crate) fn put24(buffer: &mut BytesMut, value: u32)
    requires
        bytes_mut_contents(*old(buffer)).len() + 3 <= isize::MAX / 2,
    ensures
        bytes_mut_contents(*final(buffer)) == bytes_mut_contents(*old(buffer)) + be24(value as int),
{
    let octets: [u8; 3] = [
        (value / 0x10000 % 0x100) as u8,
        (value / 0x100 % 0x100) as u8,
        (value % 0x100) as u8,
    ];
    buffer.extend_from_slice(octets.as_slice());
    assert(octets@ =~= be24(value as int));
}

/// Appends the low 48 bits of an integer.
pub(crate) fn put48(buffer: &mut BytesMut, value: u64)
    requires
        bytes_mut_contents(*old(buffer)).len() + 6 <= isize::MAX / 2,
    ensures
        bytes_mut_contents(*final(buffer)) == bytes_mut_contents(*old(buffer)) + be48(value as int),
{
    let high: u64 = value / 0x1000000;
    let low: u64 = value % 0x1000000;
    let octets: [u8; 6] = [
        (high / 0x10000 % 0x100) as u8,
        (high / 0x100 % 0x100) as u8,
        (high % 0x100) as u8,
        (low / 0x10000 % 0x100) as u8,
        (low / 0x100 % 0x100) as u8,
        (low % 0x100) as u8,
    ];
    buffer.extend_from_slice(octets.as_slice());
    assert(octets@ =~= be48(value as int));
}

/// Reads the 16 bit integer at `at`.
pub(crate) fn get16(data: &[u8], at: usize) -> (value: u16)
    requires
        at + 2 <= data@.len(),
    ensures
        value == read16(data@, at as int),
{
    data[at] as u16 * 0x100 + data[at + 1] as u16
}

/// Reads the 24 bit integer at `at`.
pub(crate) fn get24(data: &[u8], at: usize) -> (value: u32)
    requires
        at + 3 <= data@.len(),
    ensures
        value == read24(data@, at as int),
        value < 0x1000000,
{
    data[at] as u32 * 0x10000 + data[at + 1] as u32 * 0x100 + data[at + 2] as u32
}

/// Reads the 48 bit integer at `at`.
pub(crate) fn get48(data: &[u8], at: usize) -> (value: u64)
    requires
        at + 6 <= data@.len(),
    ensures
        value == read48(data@, at as int),
        value < 0x1000000000000,
{
    assert(data@.len() == data.len());
    get24(data, at) as u64 * 0x1000000 + get24(data, at + 3) as u64
}

/// Reading a 16 bit integer gives back the one that was written there.
pub proof fn read16_of_be16(data: Seq<u8>, at: int, value: int)
    requires
        0 <= value < 0x10000,
        0 <= at,
        at + 2 <= data.len(),
        data.subrange(at, at + 2) == be16(value),
    ensures
        read16(data, at) == value,
{
    let written = data.subrange(at, at + 2);
    assert(data[at] == written[0] && data[at + 1] == written[1]);
}

/// Reading a 24 bit integer gives back the one that was written there.
pub proof fn read24_of_be24(data: Seq<u8>, at: int, value: int)
    requires
        0 <= value < 0x1000000,
        0 <= at,
        at + 3 <= data.len(),
        data.subrange(at, at + 3) == be24(value),
    ensures
        read24(data, at) == value,
{
    let written = data.subrange(at, at + 3);
    assert(data[at] == written[0] && data[at + 1] == written[1] && data[at + 2] == written[2]);
}

/// Writing the 24 bit integer that is read gives back the bytes.
pub proof fn be24_of_read24(data: Seq<u8>, at: int)
    requires
        0 <= at,
        at + 3 <= data.len(),
    ensures
        data.subrange(at, at + 3) == be24(read24(data, at)),
        0 <= read24(data, at) < 0x1000000,
{
    let written = be24(read24(data, at));
    assert(written[0] == data[at]);
    assert(written[1] == data[at + 1]);
    assert(written[2] == data[at + 2]);
    assert(data.subrange(at, at + 3) =~= written);
}

/// Reading a 48 bit integer gives back the one that was written there.
pub proof fn read48_of_be48(data: Seq<u8>, at: int, value: int)
    requires
        0 <= value < 0x1000000000000,
        0 <= at,
        at + 6 <= data.len(),
        data.subrange(at, at + 6) == be48(value),
    ensures
        read48(data, at) == value,
{
    let written = data.subrange(at, at + 6);
    assert(data.subrange(at, at + 3) =~= written.take(3));
    assert(data.subrange(at + 3, at + 6) =~= written.skip(3));
    assert(written.take(3) =~= be24(value / 0x1000000));
    assert(written.skip(3) =~= be24(value % 0x1000000));
    read24_of_be24(data, at, value / 0x1000000);
    read24_of_be24(data, at + 3, value % 0x1000000);
}

} // verus!
