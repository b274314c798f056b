//! The flight with which a server answers a client's hello (RFC 6347, section
//! 4.2.4).

use bytes::BytesMut;

use vstd::prelude::*;

use crate::transports::dtls::buffer::bytes_mut_contents;
use crate::transports::dtls::certificate::{
    certificate_round_trip, chain_fits, encoded_chain, CertificateMessage,
};
use crate::transports::dtls::cipher_suite::SUPPORTED_CIPHER_SUITE;
use crate::transports::dtls::context::{ContextView, WholeMessageView};
use crate::transports::dtls::context_laws::{in_order, numbered};
use crate::transports::dtls::fingerprint::sha256;
use crate::transports::dtls::handshake::{HandshakeMessage, HandshakeMessageView, HandshakeType};
use crate::transports::dtls::hello::Random;
use crate::transports::dtls::key_exchange::{key_exchange_layout, ServerKeyExchange};
use crate::transports::dtls::messages::{
    plain_server_hello, server_hello_with, unfragmented, whole_message,
};
use crate::transports::dtls::server_hello::server_hello_round_trip;
use crate::transports::dtls::wire_laws::server_hello_layout;

verus! {

/// The messages of a server's flight: its hello, its certificates, its key exchange
/// and the end of the flight.
pub open spec fn flight_of(
    random: Seq<u8>,
    cipher_suite: u16,
    chain: Seq<Seq<u8>>,
    key_exchange: ServerKeyExchange,
) -> Seq<HandshakeMessageView> {
    seq![
        whole_message(
            HandshakeType::ServerHello,
            0,
            plain_server_hello(random, cipher_suite).encoded(),
        ),
        whole_message(HandshakeType::Certificate, 1, encoded_chain(chain)),
        whole_message(HandshakeType::ServerKeyExchange, 2, key_exchange.encoded()),
        whole_message(HandshakeType::ServerHelloDone, 3, seq![]),
    ]
}

/// Makes the flight of a server that chose `cipher_suite` and signed `key_exchange`.
pub fn server_flight(
    random: Random,
    cipher_suite: u16,
    certificates: &CertificateMessage,
    key_exchange: &ServerKeyExchange,
) -> (flight: Vec<HandshakeMessage>)
    requires
        encoded_chain(certificates@).len() < 0x1000000,
        key_exchange.fits(),
    ensures
        flight@.map_values(|message: HandshakeMessage| message@) == flight_of(
            random.bytes@,
            cipher_suite,
            certificates@,
            *key_exchange,
        ),
{
    let mut flight: Vec<HandshakeMessage> = Vec::new();
    flight.push(server_hello_with(random, cipher_suite));
    let mut body: BytesMut = BytesMut::new();
    certificates.encode(&mut body);
    assert(bytes_mut_contents(body) =~= encoded_chain(certificates@));
    flight.push(unfragmented(HandshakeType::Certificate, 1, body));
    let mut body: BytesMut = BytesMut::new();
    key_exchange.encode(&mut body);
    assert(bytes_mut_contents(body) =~= key_exchange.encoded());
    flight.push(unfragmented(HandshakeType::ServerKeyExchange, 2, body));
    flight.push(unfragmented(HandshakeType::ServerHelloDone, 3, BytesMut::new()));
    assert(flight@.map_values(|message: HandshakeMessage| message@) =~= flight_of(
        random.bytes@,
        cipher_suite,
        certificates@,
        *key_exchange,
    ));
    flight
}

/// The messages of a flight as they are delivered.
pub open spec fn delivered_flight(flight: Seq<HandshakeMessageView>) -> Seq<WholeMessageView> {
    flight.map_values(
        |message: HandshakeMessageView|
            WholeMessageView {
                msg_type: message.msg_type,
                message_seq: message.message_seq,
                body: message.body,
            },
    )
}

/// A client takes the flight of a server that chose the supported cipher suite and
/// has the expected certificate, if one is expected. It then knows the server's
/// random and certificate, and awaits the fifth message. By
/// [`arrival_order_is_irrelevant`](crate::transports::dtls::context_laws::arrival_order_is_irrelevant)
/// the order of arrival does not matter.
pub proof fn flight_is_taken(
    start: ContextView,
    random: Seq<u8>,
    chain: Seq<Seq<u8>>,
    key_exchange: ServerKeyExchange,
)
    requires
        start.is_client,
        start.recv_message_seq == 0,
        random.len() == 32,
        chain_fits(chain),
        chain.len() > 0,
        start.expected_fingerprint is None || start.expected_fingerprint == Some(sha256(chain[0])),
    ensures
        ({
            let flight = delivered_flight(
                flight_of(random, SUPPORTED_CIPHER_SUITE, chain, key_exchange),
            );
            let outcome = in_order(start, flight);
            &&& numbered(start, flight)
            &&& outcome.result is Ok
            &&& outcome.context == (ContextView {
                server_random: Some(random),
                cipher_suite: Some(SUPPORTED_CIPHER_SUITE),
                peer_certificate: Some(chain[0]),
                recv_message_seq: 4,
                ..start
            })
        }),
{
    let hello = plain_server_hello(random, SUPPORTED_CIPHER_SUITE);
    let flight = delivered_flight(flight_of(random, SUPPORTED_CIPHER_SUITE, chain, key_exchange));
    server_hello_round_trip(hello);
    certificate_round_trip(chain);
    assert(flight.drop_last().drop_last().drop_last().drop_last() =~= seq![]);
    assert(flight.drop_last().drop_last().drop_last().last() == flight[0]);
    assert(flight.drop_last().drop_last().last() == flight[1]);
    assert(flight.drop_last().last() == flight[2]);
    reveal_with_fuel(in_order, 5);
}

/// A flight is four unfragmented messages, numbered from 0: a hello of DTLS 1.2 with
/// the random and the suite, the chain, the key exchange, and an empty end.
pub proof fn flight_layout(
    random: Seq<u8>,
    cipher_suite: u16,
    chain: Seq<Seq<u8>>,
    key_exchange: ServerKeyExchange,
)
    requires
        random.len() == 32,
        encoded_chain(chain).len() <= 0xFFFFFF,
        key_exchange.public_key@.len() <= 255,
        key_exchange.signature@.len() <= 0xFFFF,
    ensures
        ({
            let flight = flight_of(random, cipher_suite, chain, key_exchange);
            &&& flight.len() == 4
            &&& forall|i: int|
                0 <= i < 4 ==> {
                    &&& (#[trigger] flight[i]).message_seq == i
                    &&& flight[i].fragment_offset == 0
                    &&& flight[i].total_length == flight[i].body.len()
                    &&& flight[i].fragment_length == flight[i].body.len()
                }
            &&& flight[0].msg_type == HandshakeType::ServerHello
            &&& flight[0].body.len() == 38
            &&& flight[0].body[0] == 254 && flight[0].body[1] == 253
            &&& flight[0].body.subrange(2, 34) == random
            &&& flight[0].body[35] * 256 + flight[0].body[36] == cipher_suite
            &&& flight[1].msg_type == HandshakeType::Certificate
            &&& flight[1].body == encoded_chain(chain)
            &&& flight[2].msg_type == HandshakeType::ServerKeyExchange
            &&& flight[2].body == key_exchange.encoded()
            &&& flight[3].msg_type == HandshakeType::ServerHelloDone
            &&& flight[3].body.len() == 0
        }),
{
    server_hello_layout(plain_server_hello(random, cipher_suite));
    key_exchange_layout(key_exchange);
}

} // verus!
