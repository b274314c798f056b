//! Handshake messages that are put together from their parts.

use bytes::{Bytes, BytesMut};

use vstd::prelude::*;
use vstd::slice::slice_subrange;

use crate::transports::dtls::buffer::bytes_mut_contents;
use crate::transports::dtls::client_hello::{ClientHello, ClientHelloView};
use crate::transports::dtls::error::DtlsError;
use crate::transports::dtls::handshake::{HandshakeMessage, HandshakeMessageView, HandshakeType};
use crate::transports::dtls::hello::Random;
use crate::transports::dtls::record::{ContentType, DtlsRecord, DtlsRecordView, ProtocolVersion};
use crate::transports::dtls::server_hello::{ServerHello, ServerHelloView};

verus! {

/// A message that is not fragmented.
pub open spec fn whole_message(
    msg_type: HandshakeType,
    message_seq: u16,
    body: Seq<u8>,
) -> HandshakeMessageView {
    HandshakeMessageView {
        msg_type,
        total_length: body.len() as u32,
        message_seq,
        fragment_offset: 0,
        fragment_length: body.len() as u32,
        body,
    }
}

/// Makes a message that is not fragmented.
pub fn unfragmented(msg_type: HandshakeType, message_seq: u16, body: BytesMut) -> (message:
    HandshakeMessage)
    requires
        bytes_mut_contents(body).len() < 0x1000000,
    ensures
        message@ == whole_message(msg_type, message_seq, bytes_mut_contents(body)),
{
    let len: u32 = body.len() as u32;
    HandshakeMessage {
        msg_type,
        total_length: len,
        message_seq,
        fragment_offset: 0,
        fragment_length: len,
        body: body.freeze(),
    }
}

/// The record that carries a message before keys are agreed on.
pub open spec fn handshake_record_of(
    message: HandshakeMessageView,
    sequence_number: u64,
) -> DtlsRecordView {
    DtlsRecordView {
        content_type: ContentType::Handshake,
        version: ProtocolVersion { major: 254, minor: 253 },
        epoch: 0,
        sequence_number,
        payload: message.encoded(),
    }
}

/// Puts a message into a record.
pub fn handshake_record(message: &HandshakeMessage, sequence_number: u64) -> (record: DtlsRecord)
    requires
        message@.encoded().len() < 0x10000,
    ensures
        record@ == handshake_record_of(message@, sequence_number),
{
    let mut payload: BytesMut = BytesMut::new();
    message.encode(&mut payload);
    assert(bytes_mut_contents(payload) =~= message@.encoded());
    DtlsRecord {
        content_type: ContentType::Handshake,
        version: ProtocolVersion::dtls_1_2(),
        epoch: 0,
        sequence_number,
        payload: payload.freeze(),
    }
}

/// The hello of a server that chose `cipher_suite`, without session or extensions.
pub open spec fn plain_server_hello(random: Seq<u8>, cipher_suite: u16) -> ServerHelloView {
    ServerHelloView {
        version: ProtocolVersion { major: 254, minor: 253 },
        random,
        session_id: seq![],
        cipher_suite,
        compression_method: 0,
        extensions: seq![],
    }
}

/// Makes the first message of a server that chose `cipher_suite`.
pub fn server_hello_with(random: Random, cipher_suite: u16) -> (message: HandshakeMessage)
    ensures
        message@ == whole_message(
            HandshakeType::ServerHello,
            0,
            plain_server_hello(random.bytes@, cipher_suite).encoded(),
        ),
{
    let server_hello: ServerHello = ServerHello {
        version: ProtocolVersion::dtls_1_2(),
        random,
        session_id: Vec::new(),
        cipher_suite,
        compression_method: 0,
        extensions: Vec::new(),
    };
    assert(server_hello@ =~= plain_server_hello(random.bytes@, cipher_suite));
    let mut body: BytesMut = BytesMut::new();
    server_hello.encode(&mut body);
    assert(bytes_mut_contents(body) =~= server_hello@.encoded());
    unfragmented(HandshakeType::ServerHello, 0, body)
}

/// Makes the first message of a server that chose `cipher_suite`, with a fresh
/// random. Fails only if the operating system has no random bytes to give.
pub fn server_hello_message(cipher_suite: u16) -> (message: Result<HandshakeMessage, DtlsError>)
    ensures
        match message {
            Ok(message) => exists|random: Seq<u8>|
                {
                    &&& random.len() == 32
                    &&& message@ == whole_message(
                        HandshakeType::ServerHello,
                        0,
                        #[trigger] plain_server_hello(random, cipher_suite).encoded(),
                    )
                },
            Err(error) => error == DtlsError::RandomUnavailable,
        },
{
    match Random::new() {
        Ok(random) => {
            let message: HandshakeMessage = server_hello_with(random, cipher_suite);
            assert(random.bytes@.len() == 32);
            Ok(message)
        },
        Err(error) => Err(error),
    }
}

/// The hello of a client that offers `cipher_suites` and no compression, without
/// session, cookie or extensions.
pub open spec fn plain_client_hello(random: Seq<u8>, cipher_suites: Seq<u16>) -> ClientHelloView {
    ClientHelloView {
        version: ProtocolVersion { major: 254, minor: 253 },
        random,
        session_id: seq![],
        cookie: seq![],
        cipher_suites,
        compression_methods: seq![0u8],
        extensions: seq![],
    }
}

/// Makes the first message of a client that offers `cipher_suites`.
pub fn client_hello_with(random: Random, cipher_suites: Vec<u16>) -> (message: HandshakeMessage)
    requires
        cipher_suites@.len() < 0x8000,
    ensures
        message@ == whole_message(
            HandshakeType::ClientHello,
            0,
            plain_client_hello(random.bytes@, cipher_suites@).encoded(),
        ),
{
    let mut compression_methods: Vec<u8> = Vec::new();
    compression_methods.push(0);
    let ghost offered = cipher_suites@;
    let client_hello: ClientHello = ClientHello {
        version: ProtocolVersion::dtls_1_2(),
        random,
        session_id: Vec::new(),
        cookie: Vec::new(),
        cipher_suites,
        compression_methods,
        extensions: Vec::new(),
    };
    assert(client_hello@ =~= plain_client_hello(random.bytes@, offered));
    let mut body: BytesMut = BytesMut::new();
    client_hello.encode(&mut body);
    assert(bytes_mut_contents(body) =~= client_hello@.encoded());
    unfragmented(HandshakeType::ClientHello, 0, body)
}

/// Two fragments of a message, and the message.
#[derive(Debug)]
pub struct Fragments {
    pub f1: HandshakeMessage,
    pub f2: HandshakeMessage,
    pub full: Vec<u8>,
}

/// A body of `len` bytes that count up from zero and start over after 250.
pub open spec fn counting_body(len: nat) -> Seq<u8> {
    Seq::new(len, |i: int| (i % 251) as u8)
}

/// The fragment at `offset` of a Certificate message that is `total_length` bytes
/// long. The offset and the lengths are cut to 32 bits.
pub open spec fn certificate_fragment(
    message_seq: u16,
    total_length: usize,
    offset: usize,
    part: Seq<u8>,
) -> HandshakeMessageView {
    HandshakeMessageView {
        msg_type: HandshakeType::Certificate,
        total_length: total_length as u32,
        message_seq,
        fragment_offset: offset as u32,
        fragment_length: (part.len() as usize) as u32,
        body: part,
    }
}

fn make_fragment(message_seq: u16, total_len: usize, offset: usize, part: &[u8]) -> (fragment:
    HandshakeMessage)
    ensures
        fragment@ == certificate_fragment(message_seq, total_len, offset, part@),
{
    HandshakeMessage {
        msg_type: HandshakeType::Certificate,
        total_length: total_len as u32,
        message_seq,
        fragment_offset: offset as u32,
        fragment_length: part.len() as u32,
        body: Bytes::copy_from_slice(part),
    }
}

/// Makes a Certificate message of `total_len` bytes and its two fragments, cut at
/// `split_at`.
pub fn fragmented_message(seq: u16, total_len: usize, split_at: usize) -> (fragments: Fragments)
    requires
        split_at <= total_len,
    ensures
        fragments.full@ == counting_body(total_len as nat),
        fragments.f1@ == certificate_fragment(
            seq,
            total_len,
            0,
            counting_body(total_len as nat).take(split_at as int),
        ),
        fragments.f2@ == certificate_fragment(
            seq,
            total_len,
            split_at,
            counting_body(total_len as nat).skip(split_at as int),
        ),
{
    let mut body: Vec<u8> = Vec::new();
    for i in 0..total_len
        invariant
            body@ =~= counting_body(i as nat),
    {
        body.push((i % 251) as u8);
    }
    let first: &[u8] = slice_subrange(body.as_slice(), 0, split_at);
    let second: &[u8] = slice_subrange(body.as_slice(), split_at, total_len);
    assert(first@ =~= counting_body(total_len as nat).take(split_at as int));
    assert(second@ =~= counting_body(total_len as nat).skip(split_at as int));
    let f1: HandshakeMessage = make_fragment(seq, total_len, 0, first);
    let f2: HandshakeMessage = make_fragment(seq, total_len, split_at, second);
    Fragments { f1, f2, full: body }
}

/// A message that is not fragmented says twice how long its body is, starts at the
/// front, and holds the body.
pub proof fn whole_message_layout(msg_type: HandshakeType, message_seq: u16, body: Seq<u8>)
    requires
        body.len() <= 0xFFFFFFFF,
    ensures
        ({
            let message = whole_message(msg_type, message_seq, body);
            &&& message.msg_type == msg_type
            &&& message.message_seq == message_seq
            &&& message.total_length == body.len()
            &&& message.fragment_offset == 0
            &&& message.fragment_length == body.len()
            &&& message.body == body
        }),
{
}

/// A plain hello is one of DTLS 1.2 with the random and the suites that it was made
/// with, without compression, and has nothing else in it.
pub proof fn plain_hello_layout(random: Seq<u8>, cipher_suite: u16, cipher_suites: Seq<u16>)
    ensures
        ({
            let hello = plain_server_hello(random, cipher_suite);
            &&& hello.version.major == 254 && hello.version.minor == 253
            &&& hello.random == random
            &&& hello.cipher_suite == cipher_suite
            &&& hello.compression_method == 0
            &&& hello.session_id.len() == 0
            &&& hello.extensions.len() == 0
        }),
        ({
            let hello = plain_client_hello(random, cipher_suites);
            &&& hello.version.major == 254 && hello.version.minor == 253
            &&& hello.random == random
            &&& hello.cipher_suites == cipher_suites
            &&& hello.compression_methods == seq![0u8]
            &&& hello.session_id.len() == 0
            &&& hello.cookie.len() == 0
            &&& hello.extensions.len() == 0
        }),
{
}

/// The record of a message is a plaintext handshake record of DTLS 1.2 with this
/// number, and its payload is the message.
pub proof fn handshake_record_layout(message: HandshakeMessageView, sequence_number: u64)
    ensures
        ({
            let record = handshake_record_of(message, sequence_number);
            &&& record.content_type == ContentType::Handshake
            &&& record.version.major == 254 && record.version.minor == 253
            &&& record.epoch == 0
            &&& record.sequence_number == sequence_number
            &&& record.payload == message.encoded()
        }),
{
}

/// The fragments of a message are Certificate messages with its number and length.
/// Each says where it starts and how long it is, and the bodies joined are the
/// message.
pub proof fn fragments_make_the_message(message_seq: u16, total_length: usize, split: usize)
    requires
        split <= total_length <= 0xFFFFFFFF,
    ensures
        ({
            let body = counting_body(total_length as nat);
            let one = certificate_fragment(message_seq, total_length, 0, body.take(split as int));
            let other = certificate_fragment(
                message_seq,
                total_length,
                split,
                body.skip(split as int),
            );
            &&& body.len() == total_length
            &&& forall|i: int| 0 <= i < total_length ==> #[trigger] body[i] == i % 251
            &&& one.msg_type == HandshakeType::Certificate
            &&& other.msg_type == HandshakeType::Certificate
            &&& one.message_seq == message_seq && other.message_seq == message_seq
            &&& one.total_length == total_length && other.total_length == total_length
            &&& one.fragment_offset == 0 && other.fragment_offset == split
            &&& one.fragment_length == split && other.fragment_length == total_length - split
            &&& one.body + other.body == body
        }),
{
    let body = counting_body(total_length as nat);
    assert(body.take(split as int) + body.skip(split as int) =~= body);
}

} // verus!
