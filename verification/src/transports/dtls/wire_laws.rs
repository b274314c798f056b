//! Where each part of a message stands on the wire.

use vstd::prelude::*;

use crate::transports::dtls::alert::handshake_failure;
use crate::transports::dtls::buffer::{be16, be24, be48, read16, read24, read48};
use crate::transports::dtls::certificate::{
    chain_fits, encoded_chain, entries, is_chain, CertificateMessage,
};
use crate::transports::dtls::client_hello::{suite_bytes, ClientHello, ClientHelloView};
use crate::transports::dtls::handshake::{
    has_handshake_message, handshake_round_trip, starts_with_message, HandshakeMessage,
    HandshakeMessageView, HandshakeType,
};
use crate::transports::dtls::hello::{ends_with_extensions, extension_block};
use crate::transports::dtls::record::{
    has_record, record_round_trip, starts_with_record, ContentType, DtlsRecord, DtlsRecordView,
};
use crate::transports::dtls::server_hello::{ServerHello, ServerHelloView};
use crate::transports::dtls::vector::{vector16, vector8};

verus! {

/// Integers are written with the most significant byte first.
pub proof fn integers_are_big_endian(value: int)
    ensures
        be16(value).len() == 2,
        0 <= value < 0x10000 ==> be16(value)[0] * 256 + be16(value)[1] == value,
        be24(value).len() == 3,
        0 <= value < 0x1000000 ==> be24(value)[0] * 65536 + be24(value)[1] * 256 + be24(value)[2]
            == value,
        be48(value).len() == 6,
{
}

/// Integers of six bytes are written with the most significant byte first.
pub proof fn long_integers_are_big_endian(value: int)
    requires
        0 <= value < 0x1000000000000,
    ensures
        be48(value)[0] * 0x10000000000 + be48(value)[1] * 0x100000000 + be48(value)[2] * 0x1000000
            + be48(value)[3] * 0x10000 + be48(value)[4] * 0x100 + be48(value)[5] == value,
{
    let high = value / 0x1000000;
    let low = value % 0x1000000;
    assert(value == high * 0x1000000 + low);
    integers_are_big_endian(high);
    integers_are_big_endian(low);
    assert(be48(value)[0] == be24(high)[0]);
    assert(be48(value)[1] == be24(high)[1]);
    assert(be48(value)[2] == be24(high)[2]);
    assert(be48(value)[3] == be24(low)[0]);
    assert(be48(value)[4] == be24(low)[1]);
    assert(be48(value)[5] == be24(low)[2]);
}

/// Integers are read with the most significant byte first.
pub proof fn integers_are_read_big_endian(data: Seq<u8>, at: int)
    ensures
        read16(data, at) == data[at] * 256 + data[at + 1],
        read24(data, at) == data[at] * 65536 + data[at + 1] * 256 + data[at + 2],
        read48(data, at) == data[at] * 0x10000000000 + data[at + 1] * 0x100000000 + data[at + 2]
            * 0x1000000 + data[at + 3] * 0x10000 + data[at + 4] * 0x100 + data[at + 5],
{
}

/// A vector is its length and then its items.
pub proof fn vector_is_length_and_items(items: Seq<u8>)
    ensures
        vector8(items).len() == 1 + items.len(),
        items.len() <= 255 ==> vector8(items)[0] == items.len(),
        vector8(items).skip(1) == items,
        vector16(items).len() == 2 + items.len(),
        items.len() <= 0xFFFF ==> vector16(items)[0] * 256 + vector16(items)[1] == items.len(),
        vector16(items).skip(2) == items,
{
    assert(vector8(items).skip(1) =~= items);
    assert(vector16(items).skip(2) =~= items);
}

/// The content types have the codes of the standard.
pub proof fn content_codes_are_standard()
    ensures
        ContentType::ChangeCipherSpec.spec_code() == 20,
        ContentType::Alert.spec_code() == 21,
        ContentType::Handshake.spec_code() == 22,
        ContentType::ApplicationData.spec_code() == 23,
{
}

/// The handshake message types have the codes of the standard.
pub proof fn handshake_codes_are_standard()
    ensures
        HandshakeType::HelloRequest.spec_code() == 0,
        HandshakeType::ClientHello.spec_code() == 1,
        HandshakeType::ServerHello.spec_code() == 2,
        HandshakeType::HelloVerifyRequest.spec_code() == 3,
        HandshakeType::Certificate.spec_code() == 11,
        HandshakeType::ServerKeyExchange.spec_code() == 12,
        HandshakeType::CertificateRequest.spec_code() == 13,
        HandshakeType::ServerHelloDone.spec_code() == 14,
        HandshakeType::CertificateVerify.spec_code() == 15,
        HandshakeType::ClientKeyExchange.spec_code() == 16,
        HandshakeType::Finished.spec_code() == 20,
{
}

/// Records and messages are seen as what their fields hold.
pub proof fn records_and_messages_are_seen_as_they_are(
    record: DtlsRecord,
    message: HandshakeMessage,
)
    ensures
        record@.content_type == record.content_type,
        record@.version == record.version,
        record@.epoch == record.epoch,
        record@.sequence_number == record.sequence_number,
        record@.payload == crate::transports::dtls::buffer::bytes_contents(record.payload),
        message@.msg_type == message.msg_type,
        message@.total_length == message.total_length,
        message@.message_seq == message.message_seq,
        message@.fragment_offset == message.fragment_offset,
        message@.fragment_length == message.fragment_length,
        message@.body == crate::transports::dtls::buffer::bytes_contents(message.body),
{
}

/// Hellos and chains are seen as what their fields hold.
pub proof fn hellos_and_chains_are_seen_as_they_are(
    client: ClientHello,
    server: ServerHello,
    chain: CertificateMessage,
)
    ensures
        client@.version == client.version,
        client@.random == client.random.bytes@,
        client@.session_id == client.session_id@,
        client@.cookie == client.cookie@,
        client@.cipher_suites == client.cipher_suites@,
        client@.compression_methods == client.compression_methods@,
        client@.extensions == client.extensions@,
        server@.version == server.version,
        server@.random == server.random.bytes@,
        server@.session_id == server.session_id@,
        server@.cipher_suite == server.cipher_suite,
        server@.compression_method == server.compression_method,
        server@.extensions == server.extensions@,
        chain@.len() == chain.certificates@.len(),
        forall|i: int|
            0 <= i < chain.certificates@.len() ==> #[trigger] chain@[i] == chain.certificates@[i]@,
{
}

/// A record is its content type, version, epoch, sequence number and length, and then
/// its payload.
pub proof fn record_layout(record: DtlsRecordView)
    requires
        record.sequence_number < 0x1000000000000,
        record.payload.len() <= 0xFFFF,
    ensures
        ({
            let wire = record.encoded();
            &&& wire.len() == 13 + record.payload.len()
            &&& wire[0] == record.content_type.spec_code()
            &&& wire[1] == record.version.major
            &&& wire[2] == record.version.minor
            &&& wire[3] * 256 + wire[4] == record.epoch
            &&& wire[5] * 0x10000000000 + wire[6] * 0x100000000 + wire[7] * 0x1000000 + wire[8]
                * 0x10000 + wire[9] * 0x100 + wire[10] == record.sequence_number
            &&& wire[11] * 256 + wire[12] == record.payload.len()
            &&& wire.skip(13) == record.payload
        }),
{
    let wire = record.encoded();
    let number = record.sequence_number as int;
    integers_are_big_endian(record.epoch as int);
    long_integers_are_big_endian(number);
    integers_are_big_endian(record.payload.len() as int);
    assert(wire.subrange(3, 5) =~= be16(record.epoch as int));
    assert(wire.subrange(5, 11) =~= be48(number));
    assert(wire.subrange(11, 13) =~= be16(record.payload.len() as int));
    assert(forall|i: int| 0 <= i < 6 ==> wire[5 + i] == #[trigger] wire.subrange(5, 11)[i]);
    assert(wire[5] == be48(number)[0]);
    assert(wire[6] == be48(number)[1]);
    assert(wire[7] == be48(number)[2]);
    assert(wire[8] == be48(number)[3]);
    assert(wire[9] == be48(number)[4]);
    assert(wire[10] == be48(number)[5]);
    assert(wire.skip(13) =~= record.payload);
}

/// A record is read at the start of a buffer exactly if it was written there.
pub proof fn record_is_read_iff_written(data: Seq<u8>, record: DtlsRecordView)
    ensures
        starts_with_record(data, record) <==> {
            &&& record.sequence_number < 0x1000000000000
            &&& record.payload.len() <= 0xFFFF
            &&& data.len() >= 13 + record.payload.len()
            &&& data.take(13 + record.payload.len() as int) == record.encoded()
        },
{
    let len = 13 + record.payload.len() as int;
    if starts_with_record(data, record) {
        let wire = record.encoded();
        assert(record.payload.len() == read16(data, 11));
        assert(record.sequence_number < 0x1000000000000);
        record_layout(record);
        assert(wire[3] == data[3] && wire[4] == data[4]);
        lemma_same_long_integer(wire, data, 5);
        assert(wire[11] == data[11] && wire[12] == data[12]);
        assert forall|i: int| 0 <= i < len implies data.take(len)[i] == wire[i] by {
            if i >= 13 {
                assert(wire[i] == wire.skip(13)[i - 13]);
                assert(record.payload[i - 13] == data[i]);
            }
        }
        assert(data.take(len) =~= wire);
    }
    if record.sequence_number < 0x1000000000000 && record.payload.len() <= 0xFFFF && data.len()
        >= len && data.take(len) == record.encoded() {
        assert(data =~= record.encoded() + data.skip(len));
        record_round_trip(record, data.skip(len));
    }
}

/// Equal integers of six bytes have equal bytes.
proof fn lemma_same_long_integer(one: Seq<u8>, other: Seq<u8>, at: int)
    requires
        read48(one, at) == read48(other, at),
    ensures
        one[at] == other[at],
        one[at + 1] == other[at + 1],
        one[at + 2] == other[at + 2],
        one[at + 3] == other[at + 3],
        one[at + 4] == other[at + 4],
        one[at + 5] == other[at + 5],
{
    assert(read24(one, at) == read24(other, at));
    assert(read24(one, at + 3) == read24(other, at + 3));
}

/// A record that has not arrived in full is not read.
pub proof fn cut_record_is_not_read(record: DtlsRecordView, len: int)
    requires
        record.sequence_number < 0x1000000000000,
        record.payload.len() <= 0xFFFF,
        0 <= len < record.encoded().len(),
    ensures
        !has_record(record.encoded().take(len)),
{
    record_layout(record);
    let cut = record.encoded().take(len);
    if len >= 13 {
        assert(cut[11] == record.encoded()[11] && cut[12] == record.encoded()[12]);
    }
}

/// A handshake message is its type, the length of the whole message, its number, the
/// offset and the length of the fragment, and then its body.
pub proof fn handshake_layout(message: HandshakeMessageView)
    requires
        message.total_length <= 0xFFFFFF,
        message.fragment_offset <= 0xFFFFFF,
        message.fragment_length <= 0xFFFFFF,
    ensures
        ({
            let wire = message.encoded();
            &&& wire.len() == 12 + message.body.len()
            &&& wire[0] == message.msg_type.spec_code()
            &&& wire[1] * 65536 + wire[2] * 256 + wire[3] == message.total_length
            &&& wire[4] * 256 + wire[5] == message.message_seq
            &&& wire[6] * 65536 + wire[7] * 256 + wire[8] == message.fragment_offset
            &&& wire[9] * 65536 + wire[10] * 256 + wire[11] == message.fragment_length
            &&& wire.skip(12) == message.body
        }),
{
    let wire = message.encoded();
    integers_are_big_endian(message.total_length as int);
    integers_are_big_endian(message.message_seq as int);
    integers_are_big_endian(message.fragment_offset as int);
    integers_are_big_endian(message.fragment_length as int);
    assert(wire.skip(12) =~= message.body);
}

/// A handshake message is read at the start of a buffer exactly if it was written
/// there.
pub proof fn handshake_is_read_iff_written(data: Seq<u8>, message: HandshakeMessageView)
    ensures
        starts_with_message(data, message) <==> {
            &&& message.total_length <= 0xFFFFFF
            &&& message.fragment_offset <= 0xFFFFFF
            &&& message.fragment_length <= 0xFFFFFF
            &&& message.fragment_length == message.body.len()
            &&& data.len() >= 12 + message.body.len()
            &&& data.take(12 + message.body.len() as int) == message.encoded()
        },
{
    let len = 12 + message.body.len() as int;
    if starts_with_message(data, message) {
        let wire = message.encoded();
        assert(message.body.len() == read24(data, 9));
        handshake_layout(message);
        assert(wire[1] == data[1] && wire[2] == data[2] && wire[3] == data[3]);
        assert(wire[4] == data[4] && wire[5] == data[5]);
        assert(wire[6] == data[6] && wire[7] == data[7] && wire[8] == data[8]);
        assert(wire[9] == data[9] && wire[10] == data[10] && wire[11] == data[11]);
        assert forall|i: int| 0 <= i < len implies data.take(len)[i] == wire[i] by {
            if i >= 12 {
                assert(wire[i] == wire.skip(12)[i - 12]);
                assert(message.body[i - 12] == data[i]);
            }
        }
        assert(data.take(len) =~= wire);
    }
    if message.total_length <= 0xFFFFFF && message.fragment_offset <= 0xFFFFFF
        && message.fragment_length <= 0xFFFFFF && message.fragment_length == message.body.len()
        && data.len() >= len && data.take(len) == message.encoded() {
        assert(data =~= message.encoded() + data.skip(len));
        handshake_round_trip(message, data.skip(len));
    }
}

/// A handshake message that has not arrived in full is not read.
pub proof fn cut_message_is_not_read(message: HandshakeMessageView, len: int)
    requires
        message.total_length <= 0xFFFFFF,
        message.fragment_offset <= 0xFFFFFF,
        message.fragment_length <= 0xFFFFFF,
        message.fragment_length == message.body.len(),
        0 <= len < message.encoded().len(),
    ensures
        !has_handshake_message(message.encoded().take(len)),
{
    handshake_layout(message);
    let cut = message.encoded().take(len);
    if len >= 12 {
        let wire = message.encoded();
        assert(cut[9] == wire[9] && cut[10] == wire[10] && cut[11] == wire[11]);
    }
}

/// A ServerHello is its version, random, session id, cipher suite and compression
/// method, and then its extensions behind their length, if there are any.
pub proof fn server_hello_layout(hello: ServerHelloView)
    requires
        hello.random.len() == 32,
        hello.session_id.len() <= 255,
        hello.extensions.len() <= 0xFFFF,
    ensures
        ({
            let wire = hello.encoded();
            let at = 35 + hello.session_id.len() as int;
            &&& wire[0] == hello.version.major
            &&& wire[1] == hello.version.minor
            &&& wire.subrange(2, 34) == hello.random
            &&& wire[34] == hello.session_id.len()
            &&& wire.subrange(35, at) == hello.session_id
            &&& wire[at] * 256 + wire[at + 1] == hello.cipher_suite
            &&& wire[at + 2] == hello.compression_method
            &&& hello.extensions.len() == 0 ==> wire.len() == at + 3
            &&& hello.extensions.len() > 0 ==> {
                &&& wire.len() == at + 5 + hello.extensions.len()
                &&& wire[at + 3] * 256 + wire[at + 4] == hello.extensions.len()
                &&& wire.skip(at + 5) == hello.extensions
            }
        }),
{
    let wire = hello.encoded();
    let at = 35 + hello.session_id.len() as int;
    vector_is_length_and_items(hello.session_id);
    vector_is_length_and_items(hello.extensions);
    integers_are_big_endian(hello.cipher_suite as int);
    assert(wire.subrange(2, 34) =~= hello.random);
    assert(wire.subrange(34, at) =~= vector8(hello.session_id));
    assert(wire.subrange(35, at) =~= hello.session_id);
    assert(wire.skip(at + 3) =~= extension_block(hello.extensions));
    if hello.extensions.len() > 0 {
        assert(wire[at + 3] == wire.skip(at + 3)[0]);
        assert(wire[at + 4] == wire.skip(at + 3)[1]);
        assert(wire.skip(at + 5) =~= wire.skip(at + 3).skip(2));
    }
}

/// A ServerHello is read from what was written of it, and from nothing else but the
/// same with extensions of length zero in place of none.
pub proof fn server_hello_is_read_iff_written(data: Seq<u8>, hello: ServerHelloView)
    ensures
        hello.is_read_from(data) <==> {
            &&& hello.random.len() == 32
            &&& hello.session_id.len() <= 255
            &&& hello.extensions.len() <= 0xFFFF
            &&& data == hello.encoded() || (hello.extensions.len() == 0 && data == hello.encoded()
                + seq![0u8, 0u8])
        },
{
    lemma_hello_tail(hello.encoded_head(), data, hello.extensions);
    assert(hello.encoded() == hello.encoded_head() + extension_block(hello.extensions));
}

proof fn lemma_hello_tail(head: Seq<u8>, data: Seq<u8>, extensions: Seq<u8>)
    ensures
        data.len() >= head.len() && data.take(head.len() as int) == head && ends_with_extensions(
            data.skip(head.len() as int),
            extensions,
        ) <==> data == head + extension_block(extensions) || (extensions.len() == 0 && data == head
            + extension_block(extensions) + seq![0u8, 0u8]),
{
    let block = extension_block(extensions);
    let n = head.len() as int;
    if extensions.len() == 0 {
        assert(extensions =~= seq![]);
        assert(vector16(extensions) =~= seq![0u8, 0u8]);
        assert(head + block =~= head);
    }
    if data.len() >= n && data.take(n) == head {
        assert(data =~= head + data.skip(n));
    }
    if data == head + block {
        assert(data.take(n) =~= head);
        assert(data.skip(n) =~= block);
    }
    if extensions.len() == 0 && data == head + block + seq![0u8, 0u8] {
        assert(data.take(n) =~= head);
        assert(data.skip(n) =~= seq![0u8, 0u8]);
    }
}

/// A ClientHello is its version, random, session id, cookie, cipher suites and
/// compression methods, and then its extensions behind their length, if there are
/// any.
pub proof fn client_hello_layout(hello: ClientHelloView)
    requires
        hello.random.len() == 32,
        hello.session_id.len() <= 255,
        hello.cookie.len() <= 255,
        hello.cipher_suites.len() <= 0x7FFF,
        hello.compression_methods.len() <= 255,
        hello.extensions.len() <= 0xFFFF,
    ensures
        ({
            let wire = hello.encoded();
            let cookie = 35 + hello.session_id.len() as int;
            let suites = cookie + 1 + hello.cookie.len();
            let methods = suites + 2 + 2 * hello.cipher_suites.len();
            let tail = methods + 1 + hello.compression_methods.len();
            &&& wire[0] == hello.version.major
            &&& wire[1] == hello.version.minor
            &&& wire.subrange(2, 34) == hello.random
            &&& wire[34] == hello.session_id.len()
            &&& wire.subrange(35, cookie) == hello.session_id
            &&& wire[cookie] == hello.cookie.len()
            &&& wire.subrange(cookie + 1, suites) == hello.cookie
            &&& wire[suites] * 256 + wire[suites + 1] == 2 * hello.cipher_suites.len()
            &&& forall|i: int|
                0 <= i < hello.cipher_suites.len() ==> wire[suites + 2 + 2 * i] * 256 + wire[suites
                    + 3 + 2 * i] == #[trigger] hello.cipher_suites[i]
            &&& wire[methods] == hello.compression_methods.len()
            &&& wire.subrange(methods + 1, tail) == hello.compression_methods
            &&& hello.extensions.len() == 0 ==> wire.len() == tail
            &&& hello.extensions.len() > 0 ==> {
                &&& wire.len() == tail + 2 + hello.extensions.len()
                &&& wire[tail] * 256 + wire[tail + 1] == hello.extensions.len()
                &&& wire.skip(tail + 2) == hello.extensions
            }
        }),
{
    let wire = hello.encoded();
    let cookie = 35 + hello.session_id.len() as int;
    let suites = cookie + 1 + hello.cookie.len();
    let methods = suites + 2 + 2 * hello.cipher_suites.len();
    let tail = methods + 1 + hello.compression_methods.len();
    let offered = suite_bytes(hello.cipher_suites);
    vector_is_length_and_items(hello.session_id);
    vector_is_length_and_items(hello.cookie);
    vector_is_length_and_items(offered);
    vector_is_length_and_items(hello.compression_methods);
    vector_is_length_and_items(hello.extensions);
    lemma_client_hello_split(hello);
    assert(wire.subrange(35, cookie) =~= wire.subrange(34, cookie).skip(1));
    assert(wire[34] == wire.subrange(34, cookie)[0]);
    assert(wire.subrange(cookie + 1, suites) =~= wire.subrange(cookie, suites).skip(1));
    assert(wire[cookie] == wire.subrange(cookie, suites)[0]);
    assert(wire[suites] == wire.subrange(suites, methods)[0]);
    assert(wire[suites + 1] == wire.subrange(suites, methods)[1]);
    assert forall|i: int| 0 <= i < hello.cipher_suites.len() implies wire[suites + 2 + 2 * i] * 256
        + wire[suites + 3 + 2 * i] == #[trigger] hello.cipher_suites[i] by {
        let block = wire.subrange(suites, methods);
        assert(wire[suites + 2 + 2 * i] == block[2 + 2 * i]);
        assert(wire[suites + 3 + 2 * i] == block[3 + 2 * i]);
        assert(block[2 + 2 * i] == block.skip(2)[2 * i]);
        assert(block[3 + 2 * i] == block.skip(2)[2 * i + 1]);
        assert(offered[2 * i] == be16(hello.cipher_suites[i] as int)[0]);
        assert((2 * i + 1) / 2 == i && (2 * i + 1) % 2 == 1);
        assert(offered[2 * i + 1] == be16(hello.cipher_suites[i] as int)[1]);
    }
    assert(wire[methods] == wire.subrange(methods, tail)[0]);
    assert(wire.subrange(methods + 1, tail) =~= wire.subrange(methods, tail).skip(1));
    if hello.extensions.len() > 0 {
        assert(wire[tail] == wire.skip(tail)[0]);
        assert(wire[tail + 1] == wire.skip(tail)[1]);
        assert(wire.skip(tail + 2) =~= wire.skip(tail).skip(2));
    }
}

/// The blocks that a ClientHello is made of, by their place.
proof fn lemma_client_hello_split(hello: ClientHelloView)
    requires
        hello.random.len() == 32,
    ensures
        ({
            let wire = hello.encoded();
            let cookie = 35 + hello.session_id.len() as int;
            let suites = cookie + 1 + hello.cookie.len();
            let methods = suites + 2 + 2 * hello.cipher_suites.len();
            let tail = methods + 1 + hello.compression_methods.len();
            &&& wire[0] == hello.version.major
            &&& wire[1] == hello.version.minor
            &&& wire.subrange(2, 34) == hello.random
            &&& wire.subrange(34, cookie) == vector8(hello.session_id)
            &&& wire.subrange(cookie, suites) == vector8(hello.cookie)
            &&& wire.subrange(suites, methods) == vector16(suite_bytes(hello.cipher_suites))
            &&& wire.subrange(methods, tail) == vector8(hello.compression_methods)
            &&& wire.skip(tail) == extension_block(hello.extensions)
            &&& wire.len() == tail + extension_block(hello.extensions).len()
        }),
{
    let prefix = seq![hello.version.major, hello.version.minor];
    let session_id = vector8(hello.session_id);
    let cookie = vector8(hello.cookie);
    let suites = vector16(suite_bytes(hello.cipher_suites));
    let methods = vector8(hello.compression_methods);
    let block = extension_block(hello.extensions);
    let wire = hello.encoded();
    let a = prefix + hello.random;
    let b = a + session_id;
    let c = b + cookie;
    let d = c + suites;
    let e = d + methods;
    assert(wire == e + block);
    assert(a.len() == 34);
    assert(b.len() == a.len() + session_id.len());
    assert(c.len() == b.len() + cookie.len());
    assert(d.len() == c.len() + suites.len());
    assert(e.len() == d.len() + methods.len());
    assert(wire.take(e.len() as int) =~= e);
    assert(wire.take(d.len() as int) =~= d);
    assert(wire.take(c.len() as int) =~= c);
    assert(wire.take(b.len() as int) =~= b);
    assert(wire.take(34) =~= a);
    assert(wire.subrange(2, 34) =~= hello.random);
    assert(wire.subrange(34, b.len() as int) =~= session_id);
    assert(wire.subrange(b.len() as int, c.len() as int) =~= cookie);
    assert(wire.subrange(c.len() as int, d.len() as int) =~= suites);
    assert(wire.subrange(d.len() as int, e.len() as int) =~= methods);
    assert(wire.skip(e.len() as int) =~= block);
}

/// A ClientHello is read from what was written of it, and from nothing else but the
/// same with extensions of length zero in place of none.
pub proof fn client_hello_is_read_iff_written(data: Seq<u8>, hello: ClientHelloView)
    ensures
        hello.is_read_from(data) <==> {
            &&& hello.random.len() == 32
            &&& hello.session_id.len() <= 255
            &&& hello.cookie.len() <= 255
            &&& hello.cipher_suites.len() <= 0x7FFF
            &&& hello.compression_methods.len() <= 255
            &&& hello.extensions.len() <= 0xFFFF
            &&& data == hello.encoded() || (hello.extensions.len() == 0 && data == hello.encoded()
                + seq![0u8, 0u8])
        },
{
    lemma_hello_tail(hello.encoded_head(), data, hello.extensions);
    assert(hello.encoded() == hello.encoded_head() + extension_block(hello.extensions));
}

/// A chain is the length of its entries and then the entries. The entry of a
/// certificate is its length and then the certificate, and the entries of two chains
/// joined are those of the one and then those of the other.
pub proof fn chain_layout(one: Seq<Seq<u8>>, certificate: Seq<u8>, other: Seq<Seq<u8>>)
    ensures
        entries(one + other) == entries(one) + entries(other),
        entries(seq![certificate]).len() == 3 + certificate.len(),
        certificate.len() <= 0xFFFFFF ==> entries(seq![certificate])[0] * 65536 + entries(
            seq![certificate],
        )[1] * 256 + entries(seq![certificate])[2] == certificate.len(),
        entries(seq![certificate]).skip(3) == certificate,
        entries(seq![]).len() == 0,
        encoded_chain(one).len() == 3 + entries(one).len(),
        entries(one).len() <= 0xFFFFFF ==> encoded_chain(one)[0] * 65536 + encoded_chain(one)[1]
            * 256 + encoded_chain(one)[2] == entries(one).len(),
        encoded_chain(one).skip(3) == entries(one),
    decreases one.len(),
{
    let single = seq![certificate];
    integers_are_big_endian(certificate.len() as int);
    integers_are_big_endian(entries(one).len() as int);
    assert(single.drop_first() =~= seq![]);
    reveal_with_fuel(entries, 2);
    assert(entries(single) =~= be24(certificate.len() as int) + certificate);
    assert(entries(single).skip(3) =~= certificate);
    assert(encoded_chain(one).skip(3) =~= entries(one));
    if one.len() == 0 {
        assert(one + other =~= other);
        assert(entries(one) + entries(other) =~= entries(other));
    } else {
        chain_layout(one.drop_first(), certificate, other);
        assert((one + other).drop_first() =~= one.drop_first() + other);
        assert(entries(one + other) =~= entries(one) + entries(other));
    }
}

/// The alert that answers a refused hello is a plaintext alert record of DTLS 1.2 with
/// this number, whose payload is level 2 and description 40.
pub proof fn handshake_failure_layout(sequence_number: u64)
    ensures
        handshake_failure(sequence_number).content_type == ContentType::Alert,
        handshake_failure(sequence_number).version.major == 254,
        handshake_failure(sequence_number).version.minor == 253,
        handshake_failure(sequence_number).epoch == 0,
        handshake_failure(sequence_number).sequence_number == sequence_number,
        handshake_failure(sequence_number).payload == seq![2u8, 40u8],
{
}

/// What can be written is limited by the length fields and by nothing else.
pub proof fn limits_are_those_of_the_fields(
    record: DtlsRecordView,
    message: HandshakeMessageView,
    client: ClientHelloView,
    server: ServerHelloView,
    chain: Seq<Seq<u8>>,
)
    ensures
        record.well_formed() <==> record.sequence_number <= 0xFFFFFFFFFFFF && record.payload.len()
            <= 0xFFFF,
        message.well_formed() <==> message.total_length <= 0xFFFFFF && message.fragment_offset
            <= 0xFFFFFF && message.fragment_length <= 0xFFFFFF && message.fragment_length
            == message.body.len(),
        message.is_whole() <==> message.fragment_offset == 0 && message.fragment_length
            == message.total_length,
        client.fits() <==> client.random.len() == 32 && client.session_id.len() <= 255
            && client.cookie.len() <= 255 && client.cipher_suites.len() <= 0x7FFF
            && client.compression_methods.len() <= 255 && client.extensions.len() <= 0xFFFF,
        server.fits() <==> server.random.len() == 32 && server.session_id.len() <= 255
            && server.extensions.len() <= 0xFFFF,
        chain_fits(chain) <==> entries(chain).len() <= 0xFFFFFF,
        forall|data: Seq<u8>| #[trigger]
            is_chain(data, chain) <==> entries(chain).len() <= 0xFFFFFF && data == encoded_chain(
                chain,
            ),
{
}

} // verus!
