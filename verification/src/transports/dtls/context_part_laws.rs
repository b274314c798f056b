//! What each step of a handshake does to each part of it.

use vstd::prelude::*;

use crate::transports::dtls::certificate::{certificate_round_trip, encoded_chain, is_chain};
use crate::transports::dtls::certificate::entries;
use crate::transports::dtls::client_hello::{client_hello_round_trip, ClientHelloView};
use crate::transports::dtls::context::{
    lemma_position, ContextView, HandshakeContext, WholeMessage, WholeMessageView,
};
use crate::transports::dtls::context_laws::{in_order, numbered};
use crate::transports::dtls::error::DtlsError;
use crate::transports::dtls::fingerprint::sha256;
use crate::transports::dtls::handshake::{
    starts_with_message, HandshakeMessageView, HandshakeType,
};
use crate::transports::dtls::server_hello::{server_hello_round_trip, ServerHelloView};
use crate::transports::dtls::state::DtlsState;

verus! {

/// A whole message is seen as what its fields hold.
pub proof fn message_is_seen_as_it_is(message: WholeMessage)
    ensures
        message@.msg_type == message.msg_type,
        message@.message_seq == message.message_seq,
        message@.body == message.body@,
{
}

/// A handshake is seen as what its fields hold.
pub proof fn context_is_seen_as_it_is(context: HandshakeContext)
    ensures
        context@.is_client == context.is_client,
        context@.state == context.state,
        context@.recv_message_seq == context.recv_message_seq,
        context@.cipher_suite == context.cipher_suite,
        context@.reassembly == context.reassembly@,
        context@.expected_fingerprint is Some <==> context.expected_fingerprint is Some,
        context.expected_fingerprint matches Some(bytes) ==> context@.expected_fingerprint == Some(
            bytes@,
        ),
        context@.client_random is Some <==> context.client_random is Some,
        context.client_random matches Some(random) ==> context@.client_random == Some(
            random.bytes@,
        ),
        context@.server_random is Some <==> context.server_random is Some,
        context.server_random matches Some(random) ==> context@.server_random == Some(
            random.bytes@,
        ),
        context@.peer_certificate is Some <==> context.peer_certificate is Some,
        context.peer_certificate matches Some(bytes) ==> context@.peer_certificate == Some(bytes@),
        context@.early.len() == context.early@.len(),
        forall|i: int|
            0 <= i < context.early@.len() ==> #[trigger] context@.early[i] == context.early@[i]@,
{
}

/// A new handshake awaits the first message and knows nothing of the peer.
pub proof fn new_handshake_knows_nothing(
    is_client: bool,
    expected_fingerprint: Option<Seq<u8>>,
)
    ensures
        ({
            let context = ContextView::initial(is_client, expected_fingerprint);
            &&& context.is_client == is_client
            &&& context.expected_fingerprint == expected_fingerprint
            &&& context.state == DtlsState::Handshaking
            &&& context.recv_message_seq == 0
            &&& context.client_random is None
            &&& context.server_random is None
            &&& context.cipher_suite is None
            &&& context.peer_certificate is None
            &&& context.reassembly.partial is None
            &&& context.early.len() == 0
        }),
{
}

/// Whether a side reads what a message of this type holds.
pub open spec fn is_read(is_client: bool, msg_type: HandshakeType) -> bool {
    if is_client {
        msg_type == HandshakeType::ServerHello || msg_type == HandshakeType::Certificate
    } else {
        msg_type == HandshakeType::ClientHello
    }
}

/// A message that this side does not read is accepted, whatever it holds, and
/// changes nothing but the number of the next message.
pub proof fn unread_message_is_only_counted(context: ContextView, message: WholeMessageView)
    requires
        !is_read(context.is_client, message.msg_type),
    ensures
        context.after_message(message).result is Ok,
        context.after_message(message).context == context,
        context.after_next(message).result is Ok,
        context.after_next(message).context == (ContextView {
            recv_message_seq: context.recv_message_seq + 1,
            ..context
        }),
{
}

/// Messages that this side does not read are all taken, whatever they hold, and
/// change nothing but the number of the next message.
pub proof fn unread_messages_are_only_counted(
    context: ContextView,
    messages: Seq<WholeMessageView>,
)
    requires
        forall|i: int|
            0 <= i < messages.len() ==> !is_read(
                context.is_client,
                (#[trigger] messages[i]).msg_type,
            ),
    ensures
        in_order(context, messages).result is Ok,
        in_order(context, messages).context == (ContextView {
            recv_message_seq: context.recv_message_seq + messages.len(),
            ..context
        }),
    decreases messages.len(),
{
    if messages.len() > 0 {
        let before = messages.drop_last();
        assert forall|i: int| 0 <= i < before.len() implies !is_read(
            context.is_client,
            (#[trigger] before[i]).msg_type,
        ) by {
            assert(before[i] == messages[i]);
        }
        unread_messages_are_only_counted(context, before);
        unread_message_is_only_counted(in_order(context, before).context, messages.last());
    }
}

/// A message of this type with this number and body.
pub open spec fn message_of(msg_type: HandshakeType, message_seq: u16, body: Seq<u8>) -> WholeMessageView {
    WholeMessageView { msg_type, message_seq, body }
}

/// A server takes the second flight of a client: a key exchange and the end of the
/// handshake.
pub proof fn second_flight_is_taken(
    context: ContextView,
    key_exchange: Seq<u8>,
    finished: Seq<u8>,
)
    requires
        !context.is_client,
        context.recv_message_seq == 1,
    ensures
        ({
            let flight = seq![
                message_of(HandshakeType::ClientKeyExchange, 1, key_exchange),
                message_of(HandshakeType::Finished, 2, finished),
            ];
            let outcome = in_order(context, flight);
            &&& numbered(context, flight)
            &&& outcome.result is Ok
            &&& outcome.context.recv_message_seq == 3
            &&& outcome.context == (ContextView { recv_message_seq: 3, ..context })
        }),
{
    let flight = seq![
        message_of(HandshakeType::ClientKeyExchange, 1, key_exchange),
        message_of(HandshakeType::Finished, 2, finished),
    ];
    unread_messages_are_only_counted(context, flight);
}

/// A server takes the second flight of a client that has a certificate: the
/// certificate and the proof of its key stand around the key exchange.
pub proof fn certified_second_flight_is_taken(
    context: ContextView,
    certificate: Seq<u8>,
    key_exchange: Seq<u8>,
    certificate_verify: Seq<u8>,
    finished: Seq<u8>,
)
    requires
        !context.is_client,
        context.recv_message_seq == 1,
    ensures
        ({
            let flight = seq![
                message_of(HandshakeType::Certificate, 1, certificate),
                message_of(HandshakeType::ClientKeyExchange, 2, key_exchange),
                message_of(HandshakeType::CertificateVerify, 3, certificate_verify),
                message_of(HandshakeType::Finished, 4, finished),
            ];
            let outcome = in_order(context, flight);
            &&& numbered(context, flight)
            &&& outcome.result is Ok
            &&& outcome.context == (ContextView { recv_message_seq: 5, ..context })
        }),
{
    let flight = seq![
        message_of(HandshakeType::Certificate, 1, certificate),
        message_of(HandshakeType::ClientKeyExchange, 2, key_exchange),
        message_of(HandshakeType::CertificateVerify, 3, certificate_verify),
        message_of(HandshakeType::Finished, 4, finished),
    ];
    unread_messages_are_only_counted(context, flight);
}

/// A hello whose parts are as long as their length fields allow or shorter.
pub open spec fn client_hello_parts_fit(hello: ClientHelloView) -> bool {
    &&& hello.random.len() == 32
    &&& hello.session_id.len() <= 255
    &&& hello.cookie.len() <= 255
    &&& hello.cipher_suites.len() <= 0x7FFF
    &&& hello.compression_methods.len() <= 255
    &&& hello.extensions.len() <= 0xFFFF
}

/// A hello whose parts are as long as their length fields allow or shorter.
pub open spec fn server_hello_parts_fit(hello: ServerHelloView) -> bool {
    &&& hello.random.len() == 32
    &&& hello.session_id.len() <= 255
    &&& hello.extensions.len() <= 0xFFFF
}

/// A server keeps the random of a hello that offers suite 0xC02B, and that suite. It
/// counts the message. Nothing else changes.
pub proof fn offered_suite_and_random_are_kept(
    context: ContextView,
    hello: ClientHelloView,
    message_seq: u16,
)
    requires
        !context.is_client,
        client_hello_parts_fit(hello),
        hello.cipher_suites.contains(0xC02B),
    ensures
        ({
            let handled = context.after_client_hello(hello.encoded());
            let counted = context.after_next(
                message_of(HandshakeType::ClientHello, message_seq, hello.encoded()),
            );
            &&& handled.result is Ok
            &&& handled.context == (ContextView {
                client_random: Some(hello.random),
                cipher_suite: Some(0xC02B),
                ..context
            })
            &&& counted.result is Ok
            &&& counted.context == (ContextView {
                client_random: Some(hello.random),
                cipher_suite: Some(0xC02B),
                recv_message_seq: context.recv_message_seq + 1,
                ..context
            })
        }),
{
    client_hello_round_trip(hello);
}

/// A server refuses a hello that does not offer suite 0xC02B. A handshake that is
/// under way fails with it; the message is not counted and nothing of it is kept.
pub proof fn hello_without_the_suite_is_refused(
    context: ContextView,
    hello: ClientHelloView,
    message_seq: u16,
)
    requires
        !context.is_client,
        client_hello_parts_fit(hello),
        !hello.cipher_suites.contains(0xC02B),
        context.state == DtlsState::Handshaking,
    ensures
        ({
            let handled = context.after_client_hello(hello.encoded());
            let counted = context.after_next(
                message_of(HandshakeType::ClientHello, message_seq, hello.encoded()),
            );
            &&& handled.result == Err::<(), _>(DtlsError::NoSharedCipherSuite)
            &&& handled.context == (ContextView { state: DtlsState::Failed, ..context })
            &&& counted.result == Err::<(), _>(DtlsError::NoSharedCipherSuite)
            &&& counted.context == (ContextView { state: DtlsState::Failed, ..context })
        }),
{
    client_hello_round_trip(hello);
}

/// A client keeps the random of a hello that chose suite 0xC02B, and that suite. It
/// counts the message. Nothing else changes.
pub proof fn chosen_suite_and_random_are_kept(
    context: ContextView,
    hello: ServerHelloView,
    message_seq: u16,
)
    requires
        context.is_client,
        server_hello_parts_fit(hello),
        hello.cipher_suite == 0xC02B,
    ensures
        ({
            let handled = context.after_server_hello(hello.encoded());
            let counted = context.after_next(
                message_of(HandshakeType::ServerHello, message_seq, hello.encoded()),
            );
            &&& handled.result is Ok
            &&& handled.context == (ContextView {
                server_random: Some(hello.random),
                cipher_suite: Some(0xC02B),
                ..context
            })
            &&& counted.result is Ok
            &&& counted.context == (ContextView {
                server_random: Some(hello.random),
                cipher_suite: Some(0xC02B),
                recv_message_seq: context.recv_message_seq + 1,
                ..context
            })
        }),
{
    server_hello_round_trip(hello);
}

/// A client refuses a hello that chose another suite than 0xC02B. A handshake that is
/// under way fails with it; the message is not counted and nothing of it is kept.
pub proof fn hello_with_another_suite_is_refused(
    context: ContextView,
    hello: ServerHelloView,
    message_seq: u16,
)
    requires
        context.is_client,
        server_hello_parts_fit(hello),
        hello.cipher_suite != 0xC02B,
        context.state == DtlsState::Handshaking,
    ensures
        ({
            let handled = context.after_server_hello(hello.encoded());
            let counted = context.after_next(
                message_of(HandshakeType::ServerHello, message_seq, hello.encoded()),
            );
            &&& handled.result == Err::<(), _>(
                DtlsError::UnsupportedCipherSuite(hello.cipher_suite),
            )
            &&& handled.context == (ContextView { state: DtlsState::Failed, ..context })
            &&& counted.result == handled.result
            &&& counted.context == handled.context
        }),
{
    server_hello_round_trip(hello);
}

/// A client keeps the first certificate of a chain that has the expected digest, or
/// any if none is expected. It counts the message. Nothing else changes.
pub proof fn first_certificate_is_kept(
    context: ContextView,
    chain: Seq<Seq<u8>>,
    digest: Seq<u8>,
    message_seq: u16,
)
    requires
        context.is_client,
        entries(chain).len() <= 0xFFFFFF,
        chain.len() > 0,
    ensures
        context.expected_fingerprint is None || context.expected_fingerprint == Some(digest) ==> {
            let outcome = context.after_certificate_with(encoded_chain(chain), digest);
            &&& outcome.result is Ok
            &&& outcome.context == (ContextView { peer_certificate: Some(chain[0]), ..context })
        },
        context.expected_fingerprint is None || context.expected_fingerprint == Some(
            sha256(chain[0]),
        ) ==> {
            let outcome = context.after_next(
                message_of(HandshakeType::Certificate, message_seq, encoded_chain(chain)),
            );
            &&& outcome.result is Ok
            &&& outcome.context == (ContextView {
                peer_certificate: Some(chain[0]),
                recv_message_seq: context.recv_message_seq + 1,
                ..context
            })
        },
{
    certificate_round_trip(chain);
}

/// A client refuses a chain whose first certificate has another digest than the
/// expected one. A handshake that is under way fails with it; the message is not
/// counted and the certificate is not kept.
pub proof fn other_certificate_is_refused(
    context: ContextView,
    chain: Seq<Seq<u8>>,
    digest: Seq<u8>,
    expected: Seq<u8>,
    message_seq: u16,
)
    requires
        context.is_client,
        entries(chain).len() <= 0xFFFFFF,
        chain.len() > 0,
        context.state == DtlsState::Handshaking,
        context.expected_fingerprint == Some(expected),
    ensures
        expected != digest ==> {
            let outcome = context.after_certificate_with(encoded_chain(chain), digest);
            &&& outcome.result == Err::<(), _>(DtlsError::FingerprintMismatch)
            &&& outcome.context == (ContextView { state: DtlsState::Failed, ..context })
        },
        expected != sha256(chain[0]) ==> {
            let outcome = context.after_next(
                message_of(HandshakeType::Certificate, message_seq, encoded_chain(chain)),
            );
            &&& outcome.result == Err::<(), _>(DtlsError::FingerprintMismatch)
            &&& outcome.context == (ContextView { state: DtlsState::Failed, ..context })
        },
{
    certificate_round_trip(chain);
}

/// The digest of the peer's certificate passes if it is the expected one or none is
/// expected, and then changes nothing. Any other fails a handshake that is under way.
pub proof fn digest_is_compared(context: ContextView, digest: Seq<u8>)
    ensures
        context.expected_fingerprint is None || context.expected_fingerprint == Some(digest)
            <==> context.after_fingerprint(digest).result is Ok,
        context.after_fingerprint(digest).result is Ok ==> context.after_fingerprint(digest).context
            == context,
        context.after_fingerprint(digest).result is Err ==> {
            let outcome = context.after_fingerprint(digest);
            &&& outcome.result == Err::<(), _>(DtlsError::FingerprintMismatch)
            &&& context.state == DtlsState::Handshaking ==> outcome.context == (ContextView {
                state: DtlsState::Failed,
                ..context
            })
        },
{
}

/// A message that cannot be read is refused and changes nothing.
pub proof fn unreadable_message_changes_nothing(context: ContextView, body: Seq<u8>)
    ensures
        (forall|hello: ClientHelloView| !hello.is_read_from(body)) ==> {
            let outcome = context.after_client_hello(body);
            outcome.result == Err::<(), _>(DtlsError::MalformedMessage) && outcome.context
                == context
        },
        (forall|hello: ServerHelloView| !hello.is_read_from(body)) ==> {
            let outcome = context.after_server_hello(body);
            outcome.result == Err::<(), _>(DtlsError::MalformedMessage) && outcome.context
                == context
        },
        (forall|chain: Seq<Seq<u8>>| !is_chain(body, chain)) ==> {
            let outcome = context.after_certificate(body);
            outcome.result == Err::<(), _>(DtlsError::MalformedMessage) && outcome.context
                == context
        },
{
}

/// A chain without certificates is refused and changes nothing.
pub proof fn empty_chain_changes_nothing(context: ContextView, digest: Seq<u8>)
    ensures
        ({
            let body = encoded_chain(seq![]);
            &&& context.after_certificate(body).result == Err::<(), _>(DtlsError::NoCertificate)
            &&& context.after_certificate(body).context == context
            &&& context.after_certificate_with(body, digest).result == Err::<(), _>(
                DtlsError::NoCertificate,
            )
            &&& context.after_certificate_with(body, digest).context == context
        }),
{
    assert(entries(seq![]).len() == 0);
    certificate_round_trip(seq![]);
}

/// A message that comes before its turn is kept behind those that wait, unless one
/// with its number waits already. Nothing else changes. A message whose turn is over
/// changes nothing.
pub proof fn early_message_waits(context: ContextView, message: WholeMessageView)
    ensures
        message.message_seq < context.recv_message_seq ==> {
            &&& context.delivered(message).result is Ok
            &&& context.delivered(message).context == context
        },
        message.message_seq > context.recv_message_seq && (forall|i: int|
            0 <= i < context.early.len() ==> (#[trigger] context.early[i]).message_seq
                != message.message_seq) ==> {
            &&& context.delivered(message).result is Ok
            &&& context.delivered(message).context == (ContextView {
                early: context.early.push(message),
                ..context
            })
        },
        message.message_seq > context.recv_message_seq && (exists|i: int|
            0 <= i < context.early.len() && (#[trigger] context.early[i]).message_seq
                == message.message_seq) ==> {
            &&& context.delivered(message).result is Ok
            &&& context.delivered(message).context == context
        },
{
    lemma_position(context.early, message.message_seq as int);
}

/// A message whose turn has come is handled as such if nothing waits.
pub proof fn message_in_turn_is_handled(context: ContextView, message: WholeMessageView)
    requires
        message.message_seq == context.recv_message_seq,
        context.early.len() == 0,
    ensures
        context.delivered(message).result == context.after_message(message).result,
        context.after_message(message).result is Err ==> context.delivered(message).context
            == context.after_message(message).context,
        context.after_message(message).result is Ok ==> context.delivered(message).context == (
        ContextView {
            recv_message_seq: context.recv_message_seq + 1,
            ..context.after_message(message).context
        }),
{
}

/// A message that arrives whole is delivered with its type, its number and its body.
pub proof fn whole_message_is_delivered(context: ContextView, message: HandshakeMessageView)
    requires
        message.fragment_offset == 0,
        message.fragment_length == message.total_length,
        message.message_seq >= context.recv_message_seq,
    ensures
        context.received(message) == context.delivered(
            message_of(message.msg_type, message.message_seq, message.body),
        ),
{
}

/// A fragment that is refused changes nothing; one that does not complete its message
/// changes nothing but the reassembly; one that does has the message delivered.
pub proof fn fragment_is_reassembled(context: ContextView, message: HandshakeMessageView)
    requires
        message.fragment_offset != 0 || message.fragment_length != message.total_length,
        message.message_seq >= context.recv_message_seq,
    ensures
        ({
            let pushed = context.reassembly.push_result(
                message.message_seq,
                message.total_length as nat,
                message.fragment_offset as nat,
                message.body,
            );
            let reassembly = context.reassembly.after_push(
                message.message_seq,
                message.total_length as nat,
                message.fragment_offset as nat,
                message.body,
            );
            let outcome = context.received(message);
            match pushed {
                Err(error) => outcome.result == Err::<(), _>(error) && outcome.context == context,
                Ok(None) => outcome.result is Ok && outcome.context == (ContextView {
                    reassembly,
                    ..context
                }),
                Ok(Some(body)) => outcome == (ContextView { reassembly, ..context }).delivered(
                    message_of(message.msg_type, message.message_seq, body),
                ),
            }
        }),
{
}

/// A payload that does not start with a full message is ignored.
pub proof fn incomplete_payload_is_ignored(context: ContextView, payload: Seq<u8>)
    requires
        payload.len() < 12 || payload.len() < 12 + payload[9] * 65536 + payload[10] * 256
            + payload[11],
    ensures
        context.processed(payload).result is Ok,
        context.processed(payload).context == context,
{
}

/// A payload whose first message is of an unknown type is refused and changes
/// nothing.
pub proof fn unknown_message_type_is_refused(context: ContextView, payload: Seq<u8>)
    requires
        payload.len() >= 12,
        payload.len() >= 12 + payload[9] * 65536 + payload[10] * 256 + payload[11],
        3 < payload[0] < 11 || 16 < payload[0] < 20 || payload[0] > 20,
    ensures
        context.processed(payload).result == Err::<(), _>(
            DtlsError::UnknownHandshakeType(payload[0]),
        ),
        context.processed(payload).context == context,
{
    assert forall|message: HandshakeMessageView| !starts_with_message(payload, message) by {
        assert(message.msg_type.spec_code() != payload[0]);
    }
}

proof fn lemma_next_keeps_waiting(context: ContextView, message: WholeMessageView)
    ensures
        context.after_next(message).context.early == context.early,
        context.after_next(message).result is Ok ==> context.after_next(
            message,
        ).context.recv_message_seq == context.recv_message_seq + 1,
{
}

proof fn lemma_drained_one(context: ContextView, waiting: WholeMessageView)
    requires
        context.early == seq![waiting],
        waiting.message_seq == context.recv_message_seq,
    ensures
        ({
            let rest = ContextView { early: seq![], ..context };
            &&& context.drained().result == rest.after_next(waiting).result
            &&& context.drained().context == rest.after_next(waiting).context
        }),
{
    lemma_position(context.early, context.recv_message_seq);
    assert(context.early[0] == waiting);
    assert(context.next_is_here());
    assert(context.next_message() == waiting);
    assert(context.early.remove(0) =~= seq![]);
    let rest = ContextView { early: seq![], ..context };
    assert(context.without_next() == rest);
    let outcome = rest.after_next(waiting);
    lemma_next_keeps_waiting(rest, waiting);
    lemma_position(outcome.context.early, outcome.context.recv_message_seq);
    assert(outcome.context.drained() == outcome.context.accepted());
}

/// Once a message in turn is handled, the one that waits for it is handled next, and
/// no longer waits.
pub proof fn waiting_message_follows(
    context: ContextView,
    message: WholeMessageView,
    waiting: WholeMessageView,
)
    requires
        message.message_seq == context.recv_message_seq,
        waiting.message_seq == context.recv_message_seq + 1,
        context.early == seq![waiting],
        context.after_next(message).result is Ok,
    ensures
        ({
            let next = ContextView { early: seq![], ..context.after_next(message).context };
            let outcome = context.delivered(message);
            &&& outcome.result == next.after_next(waiting).result
            &&& outcome.context == next.after_next(waiting).context
            &&& outcome.context.early.len() == 0
        }),
{
    lemma_next_keeps_waiting(context, message);
    let handled = context.after_next(message).context;
    lemma_drained_one(handled, waiting);
    lemma_next_keeps_waiting(ContextView { early: seq![], ..handled }, waiting);
}

} // verus!
