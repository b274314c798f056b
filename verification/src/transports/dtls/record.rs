//! The record layer (RFC 6347, section 4.1).

use bytes::{Bytes, BytesMut};

use vstd::prelude::*;

use crate::transports::dtls::buffer::{as_slice, get16, get48, put16, put48, put8};
use crate::transports::dtls::buffer::{be16, be48, read16, read48};
use crate::transports::dtls::buffer::{bytes_contents, bytes_mut_contents};
use crate::transports::dtls::buffer::{read16_of_be16, read48_of_be48};
use crate::transports::dtls::error::DtlsError;

verus! {

/// Bytes in front of the payload of a record.
pub const RECORD_HEADER_LEN: usize = 13;

/// What a record carries.
#[derive(Debug, Clone, Copy, PartialEq, Eq, Structural)]
pub enum ContentType {
    ChangeCipherSpec,
    Alert,
    Handshake,
    ApplicationData,
}

impl ContentType {
    /// The code of the type on the wire.
    pub open spec fn spec_code(self) -> u8 {
        match self {
            ContentType::ChangeCipherSpec => 20,
            ContentType::Alert => 21,
            ContentType::Handshake => 22,
            ContentType::ApplicationData => 23,
        }
    }

    /// The code of the type on the wire.
    pub fn code(self) -> (code: u8)
        ensures
            code == self.spec_code(),
    {
        match self {
            ContentType::ChangeCipherSpec => 20,
            ContentType::Alert => 21,
            ContentType::Handshake => 22,
            ContentType::ApplicationData => 23,
        }
    }

    /// The type with this code, if there is one.
    pub fn from_code(code: u8) -> (content_type: Option<ContentType>)
        ensures
            match content_type {
                Some(found) => found.spec_code() == code,
                None => forall|other: ContentType| #[trigger] other.spec_code() != code,
            },
    {
        match code {
            20 => Some(ContentType::ChangeCipherSpec),
            21 => Some(ContentType::Alert),
            22 => Some(ContentType::Handshake),
            23 => Some(ContentType::ApplicationData),
            _ => None,
        }
    }
}

/// A protocol version as it stands on the wire.
#[derive(Debug, Clone, Copy, PartialEq, Eq, Structural)]
pub struct ProtocolVersion {
    pub major: u8,
    pub minor: u8,
}

impl ProtocolVersion {
    /// DTLS 1.2.
    pub fn dtls_1_2() -> (version: ProtocolVersion)
        ensures
            version == (ProtocolVersion { major: 254, minor: 253 }),
    {
        ProtocolVersion { major: 254, minor: 253 }
    }
}

/// A DTLS record.
#[derive(Debug)]
pub struct DtlsRecord {
    pub content_type: ContentType,
    pub version: ProtocolVersion,
    pub epoch: u16,
    /// Sequence number, of which 48 bits go on the wire.
    pub sequence_number: u64,
    pub payload: Bytes,
}

/// The contents of a [`DtlsRecord`].
#[verifier::ext_equal]
pub struct DtlsRecordView {
    pub content_type: ContentType,
    pub version: ProtocolVersion,
    pub epoch: u16,
    pub sequence_number: u64,
    pub payload: Seq<u8>,
}

impl View for DtlsRecord {
    type V = DtlsRecordView;

    open spec fn view(&self) -> DtlsRecordView {
        DtlsRecordView {
            content_type: self.content_type,
            version: self.version,
            epoch: self.epoch,
            sequence_number: self.sequence_number,
            payload: bytes_contents(self.payload),
        }
    }
}

impl DtlsRecordView {
    /// The record on the wire.
    pub open spec fn encoded(self) -> Seq<u8> {
        seq![self.content_type.spec_code(), self.version.major, self.version.minor] + be16(
            self.epoch as int,
        ) + be48(self.sequence_number as int) + be16(self.payload.len() as int % 0x10000)
            + self.payload
    }

    /// Whether the sequence number and the length of the payload fit their fields
    /// on the wire.
    pub open spec fn well_formed(self) -> bool {
        &&& self.sequence_number < 0x1000000000000
        &&& self.payload.len() < 0x10000
    }
}

/// Whether `data` starts with a header and all the bytes that it announces.
pub open spec fn has_record(data: Seq<u8>) -> bool {
    data.len() >= RECORD_HEADER_LEN && data.len() >= RECORD_HEADER_LEN + read16(data, 11)
}

/// Whether `record` is the first record in `data`.
pub open spec fn starts_with_record(data: Seq<u8>, record: DtlsRecordView) -> bool {
    &&& has_record(data)
    &&& record.content_type.spec_code() == data[0]
    &&& record.version == (ProtocolVersion { major: data[1], minor: data[2] })
    &&& record.epoch == read16(data, 3)
    &&& record.sequence_number == read48(data, 5)
    &&& record.payload == data.subrange(
        RECORD_HEADER_LEN as int,
        RECORD_HEADER_LEN + read16(data, 11),
    )
}

impl DtlsRecord {
    /// Appends the record to `buf`.
    pub fn encode(&self, buf: &mut BytesMut)
        requires
            bytes_mut_contents(*old(buf)).len() + self@.encoded().len() <= isize::MAX / 2,
        ensures
            bytes_mut_contents(*final(buf)) == bytes_mut_contents(*old(buf)) + self@.encoded(),
    {
        let payload: &[u8] = as_slice(&self.payload);
        put8(buf, self.content_type.code());
        put8(buf, self.version.major);
        put8(buf, self.version.minor);
        put16(buf, self.epoch);
        put48(buf, self.sequence_number);
        put16(buf, (payload.len() % 0x10000) as u16);
        buf.extend_from_slice(payload);
        assert(bytes_mut_contents(*buf) =~= bytes_mut_contents(*old(buf)) + self@.encoded());
    }

    /// Takes the first record out of `buf`. Returns `None`, and leaves `buf` as it
    /// is, if the record has not arrived in full.
    pub fn decode(buf: &mut Bytes) -> (result: Result<Option<DtlsRecord>, DtlsError>)
        ensures
            match result {
                Ok(Some(record)) => {
                    &&& starts_with_record(bytes_contents(*old(buf)), record@)
                    &&& bytes_contents(*final(buf)) == bytes_contents(*old(buf)).skip(
                        RECORD_HEADER_LEN + record@.payload.len(),
                    )
                },
                Ok(None) => {
                    &&& !has_record(bytes_contents(*old(buf)))
                    &&& *final(buf) == *old(buf)
                },
                Err(error) => {
                    &&& has_record(bytes_contents(*old(buf)))
                    &&& error == DtlsError::UnknownContentType(bytes_contents(*old(buf))[0])
                    &&& forall|content_type: ContentType| #[trigger]
                        content_type.spec_code() != bytes_contents(*old(buf))[0]
                    &&& *final(buf) == *old(buf)
                },
            },
    {
        let ghost all = bytes_contents(*buf);
        let data: &[u8] = as_slice(buf);
        if data.len() < RECORD_HEADER_LEN {
            return Ok(None);
        }
        let version: ProtocolVersion = ProtocolVersion { major: data[1], minor: data[2] };
        let epoch: u16 = get16(data, 3);
        let sequence_number: u64 = get48(data, 5);
        let length: usize = get16(data, 11) as usize;
        if data.len() - RECORD_HEADER_LEN < length {
            return Ok(None);
        }
        let content_type: ContentType = match ContentType::from_code(data[0]) {
            Some(content_type) => content_type,
            None => return Err(DtlsError::UnknownContentType(data[0])),
        };
        let _ = buf.split_to(RECORD_HEADER_LEN);
        let payload: Bytes = buf.split_to(length);
        assert(bytes_contents(payload) =~= all.subrange(
            RECORD_HEADER_LEN as int,
            RECORD_HEADER_LEN + length,
        ));
        assert(bytes_contents(*buf) =~= all.skip(RECORD_HEADER_LEN + length));
        Ok(Some(DtlsRecord { content_type, version, epoch, sequence_number, payload }))
    }
}

/// No two content types share a code.
pub proof fn content_codes_are_unique(one: ContentType, other: ContentType)
    ensures
        one.spec_code() == other.spec_code() <==> one == other,
{
}

/// A record read from what was written is the record that was written, whatever
/// follows it.
pub proof fn record_round_trip(record: DtlsRecordView, rest: Seq<u8>)
    requires
        record.well_formed(),
    ensures
        starts_with_record(record.encoded() + rest, record),
        (record.encoded() + rest).skip((RECORD_HEADER_LEN + record.payload.len()) as int) == rest,
{
    let data = record.encoded() + rest;
    assert(data.subrange(3, 5) =~= be16(record.epoch as int));
    assert(data.subrange(5, 11) =~= be48(record.sequence_number as int));
    assert(data.subrange(11, 13) =~= be16(record.payload.len() as int));
    read16_of_be16(data, 3, record.epoch as int);
    read48_of_be48(data, 5, record.sequence_number as int);
    read16_of_be16(data, 11, record.payload.len() as int);
    assert(data.subrange(13, (13 + record.payload.len()) as int) =~= record.payload);
    assert(data.skip((13 + record.payload.len()) as int) =~= rest);
}

/// At most one record starts a buffer.
pub proof fn record_decoding_is_unambiguous(
    data: Seq<u8>,
    one: DtlsRecordView,
    other: DtlsRecordView,
)
    requires
        starts_with_record(data, one),
        starts_with_record(data, other),
    ensures
        one == other,
{
    content_codes_are_unique(one.content_type, other.content_type);
}

} // verus!
