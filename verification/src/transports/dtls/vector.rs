//! Variable-length vectors of the TLS presentation language (RFC 5246, section
//! 4.3): a length in network byte order, then as many bytes.

use bytes::BytesMut;

use vstd::prelude::*;
use vstd::slice::{slice_subrange, slice_to_vec};

use crate::transports::dtls::buffer::{be16, bytes_mut_contents, get16, put16, put8, read16};

verus! {

/// A vector with a length of one byte.
pub open spec fn vector8(items: Seq<u8>) -> Seq<u8> {
    seq![items.len() as u8] + items
}

/// A vector with a length of two bytes.
pub open spec fn vector16(items: Seq<u8>) -> Seq<u8> {
    be16(items.len() as int) + items
}

/// The vector with a length of one byte at `at`, if it is there in full.
pub open spec fn read_vector8(data: Seq<u8>, at: int) -> Option<Seq<u8>> {
    if at < data.len() && at + 1 + data[at] <= data.len() {
        Some(data.subrange(at + 1, at + 1 + data[at]))
    } else {
        None
    }
}

/// The vector with a length of two bytes at `at`, if it is there in full.
pub open spec fn read_vector16(data: Seq<u8>, at: int) -> Option<Seq<u8>> {
    if at + 2 <= data.len() && at + 2 + read16(data, at) <= data.len() {
        Some(data.subrange(at + 2, at + 2 + read16(data, at)))
    } else {
        None
    }
}

/// Appends a vector with a length of one byte.
pub(crate) fn put_vector8(buffer: &mut BytesMut, items: &[u8])
    requires
        items@.len() < 0x100,
        bytes_mut_contents(*old(buffer)).len() + 1 + items@.len() <= isize::MAX / 2,
    ensures
        bytes_mut_contents(*final(buffer)) == bytes_mut_contents(*old(buffer)) + vector8(items@),
{
    put8(buffer, items.len() as u8);
    buffer.extend_from_slice(items);
    assert(bytes_mut_contents(*buffer) =~= bytes_mut_contents(*old(buffer)) + vector8(items@));
}

/// Appends a vector with a length of two bytes.
pub(crate) fn put_vector16(buffer: &mut BytesMut, items: &[u8])
    requires
        items@.len() < 0x10000,
        bytes_mut_contents(*old(buffer)).len() + 2 + items@.len() <= isize::MAX / 2,
    ensures
        bytes_mut_contents(*final(buffer)) == bytes_mut_contents(*old(buffer)) + vector16(items@),
{
    put16(buffer, items.len() as u16);
    buffer.extend_from_slice(items);
    assert(bytes_mut_contents(*buffer) =~= bytes_mut_contents(*old(buffer)) + vector16(items@));
}

/// Reads the vector with a length of one byte at `at`.
pub(crate) fn get_vector8(data: &[u8], at: usize) -> (items: Option<Vec<u8>>)
    requires
        at <= data@.len(),
    ensures
        match items {
            Some(items) => read_vector8(data@, at as int) == Some(items@),
            None => read_vector8(data@, at as int) is None,
        },
{
    if at == data.len() {
        return None;
    }
    let len: usize = data[at] as usize;
    if data.len() - at - 1 < len {
        return None;
    }
    Some(slice_to_vec(slice_subrange(data, at + 1, at + 1 + len)))
}

/// Reads the vector with a length of two bytes at `at`.
pub(crate) fn get_vector16(data: &[u8], at: usize) -> (items: Option<Vec<u8>>)
    requires
        at <= data@.len(),
    ensures
        match items {
            Some(items) => read_vector16(data@, at as int) == Some(items@),
            None => read_vector16(data@, at as int) is None,
        },
{
    if data.len() - at < 2 {
        return None;
    }
    let len: usize = get16(data, at) as usize;
    if data.len() - at - 2 < len {
        return None;
    }
    Some(slice_to_vec(slice_subrange(data, at + 2, at + 2 + len)))
}

/// A vector with a length of one byte is read at `at` exactly if it was written
/// there.
pub proof fn read_vector8_iff_written(data: Seq<u8>, at: int, items: Seq<u8>)
    requires
        0 <= at,
    ensures
        read_vector8(data, at) == Some(items) <==> {
            &&& items.len() < 0x100
            &&& at + 1 + items.len() <= data.len()
            &&& data.subrange(at, at + 1 + items.len()) == vector8(items)
        },
{
    if read_vector8(data, at) == Some(items) {
        assert(data.subrange(at, at + 1 + items.len()) =~= vector8(items));
    }
    if items.len() < 0x100 && at + 1 + items.len() <= data.len() && data.subrange(
        at,
        at + 1 + items.len(),
    ) == vector8(items) {
        let written = data.subrange(at, at + 1 + items.len());
        assert(written[0] == data[at]);
        assert(written.skip(1) =~= data.subrange(at + 1, at + 1 + items.len()));
        assert(vector8(items).skip(1) =~= items);
    }
}

/// A vector with a length of two bytes is read at `at` exactly if it was written
/// there.
pub proof fn read_vector16_iff_written(data: Seq<u8>, at: int, items: Seq<u8>)
    requires
        0 <= at,
    ensures
        read_vector16(data, at) == Some(items) <==> {
            &&& items.len() < 0x10000
            &&& at + 2 + items.len() <= data.len()
            &&& data.subrange(at, at + 2 + items.len()) == vector16(items)
        },
{
    if read_vector16(data, at) == Some(items) {
        assert(data.subrange(at, at + 2 + items.len()) =~= vector16(items));
    }
    if items.len() < 0x10000 && at + 2 + items.len() <= data.len() && data.subrange(
        at,
        at + 2 + items.len(),
    ) == vector16(items) {
        let written = data.subrange(at, at + 2 + items.len());
        assert(written[0] == data[at] && written[1] == data[at + 1]);
        assert(written.skip(2) =~= data.subrange(at + 2, at + 2 + items.len()));
        assert(vector16(items).skip(2) =~= items);
    }
}

} // verus!
