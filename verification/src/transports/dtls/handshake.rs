//! Handshake messages and their fragments (RFC 6347, section 4.2.2).

use bytes::{Bytes, BytesMut};

use vstd::prelude::*;

use crate::transports::dtls::buffer::{as_slice, get16, get24, put16, put24, put8};
use crate::transports::dtls::buffer::{be16, be24, read16, read24};
use crate::transports::dtls::buffer::{bytes_contents, bytes_mut_contents};
use crate::transports::dtls::buffer::{read16_of_be16, read24_of_be24};
use crate::transports::dtls::error::DtlsError;

verus! {

/// Bytes in front of the body of a handshake message.
pub const HANDSHAKE_HEADER_LEN: usize = 12;

/// Handshake message types.
#[derive(Debug, Clone, Copy, PartialEq, Eq, Structural)]
pub enum HandshakeType {
    HelloRequest,
    ClientHello,
    ServerHello,
    HelloVerifyRequest,
    Certificate,
    ServerKeyExchange,
    CertificateRequest,
    ServerHelloDone,
    CertificateVerify,
    ClientKeyExchange,
    Finished,
}

impl HandshakeType {
    /// The code of the type on the wire.
    pub open spec fn spec_code(self) -> u8 {
        match self {
            HandshakeType::HelloRequest => 0,
            HandshakeType::ClientHello => 1,
            HandshakeType::ServerHello => 2,
            HandshakeType::HelloVerifyRequest => 3,
            HandshakeType::Certificate => 11,
            HandshakeType::ServerKeyExchange => 12,
            HandshakeType::CertificateRequest => 13,
            HandshakeType::ServerHelloDone => 14,
            HandshakeType::CertificateVerify => 15,
            HandshakeType::ClientKeyExchange => 16,
            HandshakeType::Finished => 20,
        }
    }

    /// The code of the type on the wire.
    pub fn code(self) -> (code: u8)
        ensures
            code == self.spec_code(),
    {
        match self {
            HandshakeType::HelloRequest => 0,
            HandshakeType::ClientHello => 1,
            HandshakeType::ServerHello => 2,
            HandshakeType::HelloVerifyRequest => 3,
            HandshakeType::Certificate => 11,
            HandshakeType::ServerKeyExchange => 12,
            HandshakeType::CertificateRequest => 13,
            HandshakeType::ServerHelloDone => 14,
            HandshakeType::CertificateVerify => 15,
            HandshakeType::ClientKeyExchange => 16,
            HandshakeType::Finished => 20,
        }
    }

    /// The type with this code, if there is one.
    pub fn from_code(code: u8) -> (msg_type: Option<HandshakeType>)
        ensures
            match msg_type {
                Some(found) => found.spec_code() == code,
                None => forall|other: HandshakeType| #[trigger] other.spec_code() != code,
            },
    {
        match code {
            0 => Some(HandshakeType::HelloRequest),
            1 => Some(HandshakeType::ClientHello),
            2 => Some(HandshakeType::ServerHello),
            3 => Some(HandshakeType::HelloVerifyRequest),
            11 => Some(HandshakeType::Certificate),
            12 => Some(HandshakeType::ServerKeyExchange),
            13 => Some(HandshakeType::CertificateRequest),
            14 => Some(HandshakeType::ServerHelloDone),
            15 => Some(HandshakeType::CertificateVerify),
            16 => Some(HandshakeType::ClientKeyExchange),
            20 => Some(HandshakeType::Finished),
            _ => None,
        }
    }
}

/// A handshake message, or a fragment of one.
#[derive(Debug)]
pub struct HandshakeMessage {
    pub msg_type: HandshakeType,
    /// Length of the whole message.
    pub total_length: u32,
    pub message_seq: u16,
    /// Where the fragment starts in the message.
    pub fragment_offset: u32,
    /// Length of the fragment.
    pub fragment_length: u32,
    /// The bytes of the fragment.
    pub body: Bytes,
}

/// The contents of a [`HandshakeMessage`].
#[verifier::ext_equal]
pub struct HandshakeMessageView {
    pub msg_type: HandshakeType,
    pub total_length: u32,
    pub message_seq: u16,
    pub fragment_offset: u32,
    pub fragment_length: u32,
    pub body: Seq<u8>,
}

impl View for HandshakeMessage {
    type V = HandshakeMessageView;

    open spec fn view(&self) -> HandshakeMessageView {
        HandshakeMessageView {
            msg_type: self.msg_type,
            total_length: self.total_length,
            message_seq: self.message_seq,
            fragment_offset: self.fragment_offset,
            fragment_length: self.fragment_length,
            body: bytes_contents(self.body),
        }
    }
}

impl HandshakeMessageView {
    /// The message on the wire. The length field carries the length of the whole
    /// message, also in a fragment.
    pub open spec fn encoded(self) -> Seq<u8> {
        seq![self.msg_type.spec_code()] + be24(self.total_length as int) + be16(
            self.message_seq as int,
        ) + be24(self.fragment_offset as int) + be24(self.fragment_length as int) + self.body
    }

    /// Whether the lengths fit their fields on the wire and the fragment length is
    /// that of the body.
    pub open spec fn well_formed(self) -> bool {
        &&& self.total_length < 0x1000000
        &&& self.fragment_offset < 0x1000000
        &&& self.fragment_length < 0x1000000
        &&& self.fragment_length == self.body.len()
    }

    /// Whether the message is not fragmented.
    pub open spec fn is_whole(self) -> bool {
        self.fragment_offset == 0 && self.fragment_length == self.total_length
    }
}

/// Whether `data` starts with a header and all the bytes that it announces.
pub open spec fn has_handshake_message(data: Seq<u8>) -> bool {
    data.len() >= HANDSHAKE_HEADER_LEN && data.len() >= HANDSHAKE_HEADER_LEN + read24(data, 9)
}

/// Whether `message` is the first message in `data`.
pub open spec fn starts_with_message(data: Seq<u8>, message: HandshakeMessageView) -> bool {
    &&& has_handshake_message(data)
    &&& message.msg_type.spec_code() == data[0]
    &&& message.total_length == read24(data, 1)
    &&& message.message_seq == read16(data, 4)
    &&& message.fragment_offset == read24(data, 6)
    &&& message.fragment_length == read24(data, 9)
    &&& message.body == data.subrange(
        HANDSHAKE_HEADER_LEN as int,
        HANDSHAKE_HEADER_LEN + read24(data, 9),
    )
}

impl HandshakeMessage {
    /// Appends the message to `buf`.
    pub fn encode(&self, buf: &mut BytesMut)
        requires
            bytes_mut_contents(*old(buf)).len() + self@.encoded().len() <= isize::MAX / 2,
        ensures
            bytes_mut_contents(*final(buf)) == bytes_mut_contents(*old(buf)) + self@.encoded(),
    {
        put8(buf, self.msg_type.code());
        put24(buf, self.total_length);
        put16(buf, self.message_seq);
        put24(buf, self.fragment_offset);
        put24(buf, self.fragment_length);
        buf.extend_from_slice(as_slice(&self.body));
        assert(bytes_mut_contents(*buf) =~= bytes_mut_contents(*old(buf)) + self@.encoded());
    }

    /// Takes the first message out of `buf`. Returns `None`, and leaves `buf` as
    /// it is, if the message has not arrived in full.
    pub fn decode(buf: &mut Bytes) -> (result: Result<Option<HandshakeMessage>, DtlsError>)
        ensures
            match result {
                Ok(Some(message)) => {
                    &&& starts_with_message(bytes_contents(*old(buf)), message@)
                    &&& bytes_contents(*final(buf)) == bytes_contents(*old(buf)).skip(
                        HANDSHAKE_HEADER_LEN + message.fragment_length,
                    )
                },
                Ok(None) => {
                    &&& !has_handshake_message(bytes_contents(*old(buf)))
                    &&& *final(buf) == *old(buf)
                },
                Err(error) => {
                    &&& has_handshake_message(bytes_contents(*old(buf)))
                    &&& error == DtlsError::UnknownHandshakeType(bytes_contents(*old(buf))[0])
                    &&& forall|msg_type: HandshakeType| #[trigger]
                        msg_type.spec_code() != bytes_contents(*old(buf))[0]
                    &&& *final(buf) == *old(buf)
                },
            },
    {
        let ghost all = bytes_contents(*buf);
        let data: &[u8] = as_slice(buf);
        if data.len() < HANDSHAKE_HEADER_LEN {
            return Ok(None);
        }
        let total_length: u32 = get24(data, 1);
        let message_seq: u16 = get16(data, 4);
        let fragment_offset: u32 = get24(data, 6);
        let fragment_length: u32 = get24(data, 9);
        if data.len() - HANDSHAKE_HEADER_LEN < fragment_length as usize {
            return Ok(None);
        }
        let msg_type: HandshakeType = match HandshakeType::from_code(data[0]) {
            Some(msg_type) => msg_type,
            None => return Err(DtlsError::UnknownHandshakeType(data[0])),
        };
        let _ = buf.split_to(HANDSHAKE_HEADER_LEN);
        let body: Bytes = buf.split_to(fragment_length as usize);
        assert(bytes_contents(body) =~= all.subrange(
            HANDSHAKE_HEADER_LEN as int,
            HANDSHAKE_HEADER_LEN + fragment_length,
        ));
        assert(bytes_contents(*buf) =~= all.skip(HANDSHAKE_HEADER_LEN + fragment_length));
        Ok(
            Some(
                HandshakeMessage {
                    msg_type,
                    total_length,
                    message_seq,
                    fragment_offset,
                    fragment_length,
                    body,
                },
            ),
        )
    }
}

/// No two handshake message types share a code.
pub proof fn handshake_codes_are_unique(one: HandshakeType, other: HandshakeType)
    ensures
        one.spec_code() == other.spec_code() <==> one == other,
{
}

/// A message read from what was written is the message that was written,
/// whatever follows it.
pub proof fn handshake_round_trip(message: HandshakeMessageView, rest: Seq<u8>)
    requires
        message.well_formed(),
    ensures
        starts_with_message(message.encoded() + rest, message),
        (message.encoded() + rest).skip(HANDSHAKE_HEADER_LEN + message.fragment_length) == rest,
{
    let data = message.encoded() + rest;
    assert(data.subrange(1, 4) =~= be24(message.total_length as int));
    assert(data.subrange(4, 6) =~= be16(message.message_seq as int));
    assert(data.subrange(6, 9) =~= be24(message.fragment_offset as int));
    assert(data.subrange(9, 12) =~= be24(message.fragment_length as int));
    read24_of_be24(data, 1, message.total_length as int);
    read16_of_be16(data, 4, message.message_seq as int);
    read24_of_be24(data, 6, message.fragment_offset as int);
    read24_of_be24(data, 9, message.fragment_length as int);
    assert(data.subrange(12, 12 + message.fragment_length) =~= message.body);
    assert(data.skip(12 + message.fragment_length) =~= rest);
}

/// At most one message starts a buffer.
pub proof fn decoding_is_unambiguous(
    data: Seq<u8>,
    one: HandshakeMessageView,
    other: HandshakeMessageView,
)
    requires
        starts_with_message(data, one),
        starts_with_message(data, other),
    ensures
        one == other,
{
    handshake_codes_are_unique(one.msg_type, other.msg_type);
}

/// The length field on the wire, in bytes 1 to 3, carries the length of the whole
/// message and not that of the fragment.
pub proof fn length_field_is_total_length(message: HandshakeMessageView)
    requires
        message.total_length < 0x1000000,
    ensures
        read24(message.encoded(), 1) == message.total_length,
{
    let data = message.encoded();
    assert(data.subrange(1, 4) =~= be24(message.total_length as int));
    read24_of_be24(data, 1, message.total_length as int);
}

} // verus!
