//! The state of a handshake, and how the peer's messages change it.
//!
//! Messages are handled in the order of their sequence numbers. One that arrives
//! early waits until those before it have been handled; one that was handled
//! before is ignored.

use bytes::Bytes;

use vstd::prelude::*;
use vstd::slice::slice_to_vec;

use crate::transports::dtls::buffer::{as_slice, bytes_contents};
use crate::transports::dtls::certificate::{
    certificate_is_unambiguous, chain_in, is_chain, CertificateMessage,
};
use crate::transports::dtls::cipher_suite::{
    negotiate_cipher_suite, negotiated, SUPPORTED_CIPHER_SUITE,
};
use crate::transports::dtls::client_hello::{
    client_hello_in, client_hello_is_unambiguous, client_hello_round_trip, ClientHello,
    ClientHelloView,
};
use crate::transports::dtls::error::DtlsError;
use crate::transports::dtls::fingerprint::{fingerprint, sha256};
use crate::transports::dtls::handshake::{
    decoding_is_unambiguous, has_handshake_message, starts_with_message, HandshakeMessage,
    HandshakeMessageView, HandshakeType, HANDSHAKE_HEADER_LEN,
};
use crate::transports::dtls::hello::Random;
use crate::transports::dtls::messages::{client_hello_with, plain_client_hello};
use crate::transports::dtls::reassembly::{HandshakeReassembly, ReassemblyView};
use crate::transports::dtls::server_hello::{
    server_hello_in, server_hello_is_unambiguous, ServerHello, ServerHelloView,
};
use crate::transports::dtls::state::{DtlsState, TransportEvent};

verus! {

/// A handshake message of which every byte has arrived.
#[derive(Debug)]
pub struct WholeMessage {
    pub msg_type: HandshakeType,
    pub message_seq: u16,
    pub body: Vec<u8>,
}

/// The contents of a [`WholeMessage`].
#[verifier::ext_equal]
pub struct WholeMessageView {
    pub msg_type: HandshakeType,
    pub message_seq: u16,
    pub body: Seq<u8>,
}

impl View for WholeMessage {
    type V = WholeMessageView;

    open spec fn view(&self) -> WholeMessageView {
        WholeMessageView {
            msg_type: self.msg_type,
            message_seq: self.message_seq,
            body: self.body@,
        }
    }
}

/// What is known of a handshake under way.
#[derive(Debug)]
pub struct HandshakeContext {
    pub is_client: bool,
    pub state: DtlsState,
    /// The SHA-256 digest that the peer's certificate must have, if one is expected.
    pub expected_fingerprint: Option<Vec<u8>>,
    /// The sequence number of the next message to handle.
    pub recv_message_seq: u32,
    pub client_random: Option<Random>,
    pub server_random: Option<Random>,
    pub cipher_suite: Option<u16>,
    /// The peer's own certificate in DER.
    pub peer_certificate: Option<Vec<u8>>,
    pub reassembly: HandshakeReassembly,
    /// Messages that arrived early, no two of them with the same sequence number.
    pub early: Vec<WholeMessage>,
}

/// The contents of a [`HandshakeContext`].
#[verifier::ext_equal]
pub struct ContextView {
    pub is_client: bool,
    pub state: DtlsState,
    pub expected_fingerprint: Option<Seq<u8>>,
    pub recv_message_seq: int,
    pub client_random: Option<Seq<u8>>,
    pub server_random: Option<Seq<u8>>,
    pub cipher_suite: Option<u16>,
    pub peer_certificate: Option<Seq<u8>>,
    pub reassembly: ReassemblyView,
    pub early: Seq<WholeMessageView>,
}

/// Bytes, if there are any, by their contents.
pub open spec fn optional_bytes(bytes: Option<Vec<u8>>) -> Option<Seq<u8>> {
    match bytes {
        Some(bytes) => Some(bytes@),
        None => None,
    }
}

/// A random, if there is one, by its bytes.
pub open spec fn optional_random(random: Option<Random>) -> Option<Seq<u8>> {
    match random {
        Some(random) => Some(random.bytes@),
        None => None,
    }
}

impl View for HandshakeContext {
    type V = ContextView;

    open spec fn view(&self) -> ContextView {
        ContextView {
            is_client: self.is_client,
            state: self.state,
            expected_fingerprint: optional_bytes(self.expected_fingerprint),
            recv_message_seq: self.recv_message_seq as int,
            client_random: optional_random(self.client_random),
            server_random: optional_random(self.server_random),
            cipher_suite: self.cipher_suite,
            peer_certificate: optional_bytes(self.peer_certificate),
            reassembly: self.reassembly@,
            early: self.early@.map_values(|message: WholeMessage| message@),
        }
    }
}

/// What comes of a step of the handshake: the context after it, and whether it
/// succeeded.
#[verifier::ext_equal]
pub struct Outcome {
    pub context: ContextView,
    pub result: Result<(), DtlsError>,
}

/// Where the message with this sequence number waits, or the number of waiting
/// messages if it does not.
pub open spec fn position(early: Seq<WholeMessageView>, message_seq: int) -> int
    decreases early.len(),
{
    if early.len() == 0 {
        0
    } else if early[0].message_seq == message_seq {
        0
    } else {
        1 + position(early.drop_first(), message_seq)
    }
}

/// A position is that of the first message with the sequence number.
pub proof fn lemma_position(early: Seq<WholeMessageView>, message_seq: int)
    ensures
        0 <= position(early, message_seq) <= early.len(),
        position(early, message_seq) < early.len() ==> early[position(
            early,
            message_seq,
        )].message_seq == message_seq,
        forall|i: int|
            0 <= i < position(early, message_seq) ==> (#[trigger] early[i]).message_seq
                != message_seq,
    decreases early.len(),
{
    if early.len() != 0 && early[0].message_seq != message_seq {
        let rest = early.drop_first();
        lemma_position(rest, message_seq);
        assert forall|i: int| 0 <= i < position(early, message_seq) implies (
        #[trigger] early[i]).message_seq != message_seq by {
            if i > 0 {
                assert(rest[i - 1] == early[i]);
            }
        }
    }
}

/// The first certificate of the chain that fills `body`.
pub open spec fn first_certificate_in(body: Seq<u8>) -> Result<Seq<u8>, DtlsError> {
    match chain_in(body) {
        None => Err(DtlsError::MalformedMessage),
        Some(chain) => if chain.len() == 0 {
            Err(DtlsError::NoCertificate)
        } else {
            Ok(chain[0])
        },
    }
}

impl ContextView {
    /// A handshake in which nothing has happened yet.
    pub open spec fn initial(is_client: bool, expected_fingerprint: Option<Seq<u8>>) -> Self {
        ContextView {
            is_client,
            state: DtlsState::Handshaking,
            expected_fingerprint,
            recv_message_seq: 0,
            client_random: None,
            server_random: None,
            cipher_suite: None,
            peer_certificate: None,
            reassembly: ReassemblyView::idle(),
            early: seq![],
        }
    }

    /// The step succeeds.
    pub open spec fn accepted(self) -> Outcome {
        Outcome { context: self, result: Ok(()) }
    }

    /// The step fails and the handshake can go on.
    pub open spec fn rejected(self, error: DtlsError) -> Outcome {
        Outcome { context: self, result: Err(error) }
    }

    /// The step fails and so does the handshake, unless it has ended before.
    pub open spec fn failed(self, error: DtlsError) -> Outcome {
        Outcome {
            context: ContextView {
                state: self.state.spec_after(TransportEvent::HandshakeFailed),
                ..self
            },
            result: Err(error),
        }
    }

    /// Whether no two waiting messages share a sequence number.
    pub open spec fn early_are_distinct(self) -> bool {
        forall|i: int, j: int|
            0 <= i < j < self.early.len() ==> (#[trigger] self.early[i]).message_seq != (
            #[trigger] self.early[j]).message_seq
    }

    /// A server agrees with a client on a cipher suite.
    pub open spec fn agreed(self, client_random: Seq<u8>, cipher_suite: u16) -> Self {
        ContextView {
            client_random: Some(client_random),
            cipher_suite: Some(cipher_suite),
            ..self
        }
    }

    /// A server gets a ClientHello. It takes the hello if the supported cipher suite
    /// is offered, and fails otherwise.
    pub open spec fn after_client_hello(self, body: Seq<u8>) -> Outcome {
        match client_hello_in(body) {
            None => self.rejected(DtlsError::MalformedMessage),
            Some(hello) => match negotiated(hello.cipher_suites) {
                None => self.failed(DtlsError::NoSharedCipherSuite),
                Some(suite) => self.agreed(hello.random, suite).accepted(),
            },
        }
    }

    /// A client gets a ServerHello. It takes the hello if the supported cipher suite
    /// was chosen, and fails otherwise.
    pub open spec fn after_server_hello(self, body: Seq<u8>) -> Outcome {
        match server_hello_in(body) {
            None => self.rejected(DtlsError::MalformedMessage),
            Some(hello) => if hello.cipher_suite != SUPPORTED_CIPHER_SUITE {
                self.failed(DtlsError::UnsupportedCipherSuite(hello.cipher_suite))
            } else {
                ContextView {
                    server_random: Some(hello.random),
                    cipher_suite: Some(hello.cipher_suite),
                    ..self
                }.accepted()
            },
        }
    }

    /// The peer's certificate turns out to have this digest. Without an expectation
    /// any certificate will do.
    pub open spec fn after_fingerprint(self, digest: Seq<u8>) -> Outcome {
        match self.expected_fingerprint {
            Some(expected) if expected != digest => self.failed(DtlsError::FingerprintMismatch),
            _ => self.accepted(),
        }
    }

    /// The peer sends a certificate that has this digest. It is kept unless another
    /// one is expected; then the handshake fails and nothing is kept.
    pub open spec fn after_peer_certificate(self, certificate: Seq<u8>, digest: Seq<u8>) -> Outcome {
        let checked = self.after_fingerprint(digest);
        match checked.result {
            Err(_) => checked,
            Ok(()) => ContextView { peer_certificate: Some(certificate), ..self }.accepted(),
        }
    }

    /// A client gets the server's certificate chain, whose first certificate has this
    /// digest.
    pub open spec fn after_certificate_with(self, body: Seq<u8>, digest: Seq<u8>) -> Outcome {
        match first_certificate_in(body) {
            Err(error) => self.rejected(error),
            Ok(certificate) => self.after_peer_certificate(certificate, digest),
        }
    }

    /// A client gets the server's certificate chain. It takes the first certificate
    /// if no other is expected, and fails otherwise.
    pub open spec fn after_certificate(self, body: Seq<u8>) -> Outcome {
        match first_certificate_in(body) {
            Err(error) => self.rejected(error),
            Ok(certificate) => self.after_peer_certificate(certificate, sha256(certificate)),
        }
    }

    /// A message is handled by its type and by the role of this side. Of the others
    /// only the place in the order counts: what they hold is not read here. Whoever
    /// derives the keys has to read them: to check a ServerKeyExchange with
    /// `verify_server_key_exchange_signature`, and a Finished against the keys.
    pub open spec fn after_message(self, message: WholeMessageView) -> Outcome {
        if !self.is_client && message.msg_type == HandshakeType::ClientHello {
            self.after_client_hello(message.body)
        } else if self.is_client && message.msg_type == HandshakeType::ServerHello {
            self.after_server_hello(message.body)
        } else if self.is_client && message.msg_type == HandshakeType::Certificate {
            self.after_certificate(message.body)
        } else {
            self.accepted()
        }
    }

    /// The next message in order is handled, and counted unless it fails.
    pub open spec fn after_next(self, message: WholeMessageView) -> Outcome {
        let outcome = self.after_message(message);
        match outcome.result {
            Err(_) => outcome,
            Ok(()) => ContextView {
                recv_message_seq: self.recv_message_seq + 1,
                ..outcome.context
            }.accepted(),
        }
    }

    /// Whether the next message in order has arrived early.
    pub open spec fn next_is_here(self) -> bool {
        position(self.early, self.recv_message_seq) < self.early.len()
    }

    /// The next message in order, if it has arrived early.
    pub open spec fn next_message(self) -> WholeMessageView {
        self.early[position(self.early, self.recv_message_seq)]
    }

    /// The next message in order no longer waits.
    pub open spec fn without_next(self) -> Self {
        ContextView {
            early: self.early.remove(position(self.early, self.recv_message_seq)),
            ..self
        }
    }

    /// Messages that arrived early are handled, as far as their turn has come.
    pub open spec fn drained(self) -> Outcome
        decreases self.early.len(),
    {
        if !self.next_is_here() {
            self.accepted()
        } else {
            proof {
                lemma_position(self.early, self.recv_message_seq);
            }
            let outcome = self.without_next().after_next(self.next_message());
            match outcome.result {
                Err(_) => outcome,
                Ok(()) => outcome.context.drained(),
            }
        }
    }

    /// A whole message arrives.
    pub open spec fn delivered(self, message: WholeMessageView) -> Outcome {
        if message.message_seq < self.recv_message_seq {
            self.accepted()
        } else if message.message_seq > self.recv_message_seq {
            if position(self.early, message.message_seq as int) < self.early.len() {
                self.accepted()
            } else {
                ContextView { early: self.early.push(message), ..self }.accepted()
            }
        } else {
            let outcome = self.after_next(message);
            match outcome.result {
                Err(_) => outcome,
                Ok(()) => outcome.context.drained(),
            }
        }
    }

    /// A message, or a fragment of one, arrives. Of messages that were handled
    /// before, nothing is kept.
    pub open spec fn received(self, message: HandshakeMessageView) -> Outcome {
        if message.message_seq < self.recv_message_seq {
            self.accepted()
        } else if message.is_whole() {
            self.delivered(
                WholeMessageView {
                    msg_type: message.msg_type,
                    message_seq: message.message_seq,
                    body: message.body,
                },
            )
        } else {
            let reassembled = ContextView {
                reassembly: self.reassembly.after_push(
                    message.message_seq,
                    message.total_length as nat,
                    message.fragment_offset as nat,
                    message.body,
                ),
                ..self
            };
            match self.reassembly.push_result(
                message.message_seq,
                message.total_length as nat,
                message.fragment_offset as nat,
                message.body,
            ) {
                Err(error) => self.rejected(error),
                Ok(None) => reassembled.accepted(),
                Ok(Some(body)) => reassembled.delivered(
                    WholeMessageView {
                        msg_type: message.msg_type,
                        message_seq: message.message_seq,
                        body,
                    },
                ),
            }
        }
    }

    /// A payload arrives that holds messages one after another. The first failure
    /// ends it; what does not make a full message at its end is ignored.
    pub open spec fn processed(self, payload: Seq<u8>) -> Outcome
        decreases payload.len(),
    {
        if !has_handshake_message(payload) {
            self.accepted()
        } else if exists|message: HandshakeMessageView| starts_with_message(payload, message) {
            let message = choose|message: HandshakeMessageView|
                starts_with_message(payload, message);
            let outcome = self.received(message);
            match outcome.result {
                Err(_) => outcome,
                Ok(()) => outcome.context.processed(
                    payload.skip(HANDSHAKE_HEADER_LEN + message.fragment_length),
                ),
            }
        } else {
            self.rejected(DtlsError::UnknownHandshakeType(payload[0]))
        }
    }
}

/// Finds the waiting message with this sequence number.
fn find(early: &Vec<WholeMessage>, message_seq: u32) -> (at: usize)
    ensures
        at == position(
            early@.map_values(|message: WholeMessage| message@),
            message_seq as int,
        ),
        at <= early@.len(),
{
    let ghost all = early@.map_values(|message: WholeMessage| message@);
    let mut at: usize = 0;
    assert(all.skip(0) =~= all);
    while at < early.len()
        invariant
            at <= early@.len(),
            all == early@.map_values(|message: WholeMessage| message@),
            position(all, message_seq as int) == at + position(
                all.skip(at as int),
                message_seq as int,
            ),
        decreases early@.len() - at,
    {
        assert(all.skip(at as int)[0] == all[at as int]);
        if early[at].message_seq as u32 == message_seq {
            return at;
        }
        assert(all.skip(at as int).drop_first() =~= all.skip(at + 1));
        at += 1;
    }
    at
}

/// Reads the first certificate of a chain.
fn first_certificate(body: &[u8]) -> (result: Result<Vec<u8>, DtlsError>)
    ensures
        match result {
            Ok(certificate) => first_certificate_in(body@) == Ok::<Seq<u8>, DtlsError>(certificate@),
            Err(error) => first_certificate_in(body@) == Err::<Seq<u8>, DtlsError>(error),
        },
{
    let mut message: CertificateMessage = match CertificateMessage::decode(body) {
        Ok(message) => message,
        Err(error) => return Err(error),
    };
    let ghost chain = message@;
    proof {
        certificate_is_unambiguous(
            body@,
            chain,
            choose|other: Seq<Seq<u8>>| is_chain(body@, other),
        );
    }
    if message.certificates.len() == 0 {
        return Err(DtlsError::NoCertificate);
    }
    assert(chain[0] == message.certificates@[0]@);
    Ok(message.certificates.swap_remove(0))
}

impl HandshakeContext {
    /// A handshake in which nothing has happened yet. With an expected fingerprint,
    /// the peer's certificate must have that digest.
    pub fn new(is_client: bool, expected_fingerprint: Option<Vec<u8>>) -> (context: Self)
        ensures
            context@ == ContextView::initial(is_client, optional_bytes(expected_fingerprint)),
    {
        let context: HandshakeContext = HandshakeContext {
            is_client,
            state: DtlsState::Handshaking,
            expected_fingerprint,
            recv_message_seq: 0,
            client_random: None,
            server_random: None,
            cipher_suite: None,
            peer_certificate: None,
            reassembly: HandshakeReassembly::default(),
            early: Vec::new(),
        };
        assert(context@.early =~= seq![]);
        context
    }

    /// Takes a client's hello, if it offers the supported cipher suite.
    pub fn handle_client_hello(&mut self, body: &[u8]) -> (result: Result<(), DtlsError>)
        ensures
            (Outcome { context: final(self)@, result }) == old(self)@.after_client_hello(body@),
    {
        let hello: ClientHello = match ClientHello::decode(body) {
            Ok(hello) => hello,
            Err(error) => return Err(error),
        };
        proof {
            client_hello_is_unambiguous(
                body@,
                hello@,
                choose|other: ClientHelloView| other.is_read_from(body@),
            );
        }
        match negotiate_cipher_suite(hello.cipher_suites.as_slice()) {
            None => {
                self.state = self.state.after(TransportEvent::HandshakeFailed);
                Err(DtlsError::NoSharedCipherSuite)
            },
            Some(suite) => {
                self.client_random = Some(hello.random);
                self.cipher_suite = Some(suite);
                Ok(())
            },
        }
    }

    /// Takes a server's hello, if it chose the supported cipher suite.
    pub fn handle_server_hello(&mut self, body: &[u8]) -> (result: Result<(), DtlsError>)
        ensures
            (Outcome { context: final(self)@, result }) == old(self)@.after_server_hello(body@),
    {
        let hello: ServerHello = match ServerHello::decode(body) {
            Ok(hello) => hello,
            Err(error) => return Err(error),
        };
        proof {
            server_hello_is_unambiguous(
                body@,
                hello@,
                choose|other: ServerHelloView| other.is_read_from(body@),
            );
        }
        if hello.cipher_suite != SUPPORTED_CIPHER_SUITE {
            self.state = self.state.after(TransportEvent::HandshakeFailed);
            return Err(DtlsError::UnsupportedCipherSuite(hello.cipher_suite));
        }
        self.server_random = Some(hello.random);
        self.cipher_suite = Some(hello.cipher_suite);
        Ok(())
    }

    /// Compares the digest of the peer's certificate with the expected one.
    pub fn check_fingerprint(&mut self, digest: &[u8]) -> (result: Result<(), DtlsError>)
        ensures
            (Outcome { context: final(self)@, result }) == old(self)@.after_fingerprint(digest@),
    {
        let matches: bool = match &self.expected_fingerprint {
            None => true,
            Some(expected) => same_bytes(expected.as_slice(), digest),
        };
        if matches {
            Ok(())
        } else {
            self.state = self.state.after(TransportEvent::HandshakeFailed);
            Err(DtlsError::FingerprintMismatch)
        }
    }

    /// Takes a server's certificate chain, unless its first certificate is not the
    /// expected one.
    pub fn handle_certificate(&mut self, body: &[u8]) -> (result: Result<(), DtlsError>)
        ensures
            (Outcome { context: final(self)@, result }) == old(self)@.after_certificate(body@),
    {
        match first_certificate(body) {
            Err(error) => Err(error),
            Ok(certificate) => {
                let digest: Vec<u8> = fingerprint(certificate.as_slice());
                self.accept_certificate(certificate, digest.as_slice())
            },
        }
    }

    /// Takes a server's certificate chain whose first certificate has this digest,
    /// unless another one is expected.
    pub fn handle_certificate_with_digest(&mut self, body: &[u8], digest: &[u8]) -> (result: Result<
        (),
        DtlsError,
    >)
        ensures
            (Outcome { context: final(self)@, result }) == old(self)@.after_certificate_with(
                body@,
                digest@,
            ),
    {
        match first_certificate(body) {
            Err(error) => Err(error),
            Ok(certificate) => self.accept_certificate(certificate, digest),
        }
    }

    /// Keeps a certificate that has this digest, unless another one is expected.
    fn accept_certificate(&mut self, certificate: Vec<u8>, digest: &[u8]) -> (result: Result<
        (),
        DtlsError,
    >)
        ensures
            (Outcome { context: final(self)@, result }) == old(self)@.after_peer_certificate(
                certificate@,
                digest@,
            ),
    {
        match self.check_fingerprint(digest) {
            Err(error) => Err(error),
            Ok(()) => {
                self.peer_certificate = Some(certificate);
                Ok(())
            },
        }
    }

    /// Handles a message by its type and by the role of this side.
    fn handle(&mut self, message: &WholeMessage) -> (result: Result<(), DtlsError>)
        ensures
            (Outcome { context: final(self)@, result }) == old(self)@.after_message(message@),
    {
        if !self.is_client && message.msg_type == HandshakeType::ClientHello {
            self.handle_client_hello(message.body.as_slice())
        } else if self.is_client && message.msg_type == HandshakeType::ServerHello {
            self.handle_server_hello(message.body.as_slice())
        } else if self.is_client && message.msg_type == HandshakeType::Certificate {
            self.handle_certificate(message.body.as_slice())
        } else {
            Ok(())
        }
    }

    /// Handles the next message in order and counts it unless it fails.
    fn handle_next(&mut self, message: &WholeMessage) -> (result: Result<(), DtlsError>)
        requires
            old(self)@.recv_message_seq <= u16::MAX,
        ensures
            (Outcome { context: final(self)@, result }) == old(self)@.after_next(message@),
    {
        match self.handle(message) {
            Err(error) => Err(error),
            Ok(()) => {
                self.recv_message_seq += 1;
                Ok(())
            },
        }
    }

    /// Handles messages that arrived early, as far as their turn has come.
    fn drain(&mut self) -> (result: Result<(), DtlsError>)
        ensures
            (Outcome { context: final(self)@, result }) == old(self)@.drained(),
    {
        let mut at: usize = find(&self.early, self.recv_message_seq);
        while at < self.early.len()
            invariant
                self@.drained() == old(self)@.drained(),
                at == position(self@.early, self@.recv_message_seq),
                at <= self.early@.len(),
            decreases self.early@.len(),
        {
            let ghost before = self@;
            proof {
                lemma_position(before.early, before.recv_message_seq);
                assert(before.early[at as int] == self.early@[at as int]@);
            }
            let message: WholeMessage = self.early.remove(at);
            assert(self@ =~= before.without_next());
            match self.handle_next(&message) {
                Err(error) => return Err(error),
                Ok(()) => {},
            }
            at = find(&self.early, self.recv_message_seq);
        }
        Ok(())
    }

    /// Takes a whole message: now if it is its turn, later if it is early.
    fn deliver(&mut self, message: WholeMessage) -> (result: Result<(), DtlsError>)
        ensures
            (Outcome { context: final(self)@, result }) == old(self)@.delivered(message@),
    {
        let message_seq: u32 = message.message_seq as u32;
        if message_seq < self.recv_message_seq {
            Ok(())
        } else if message_seq > self.recv_message_seq {
            if find(&self.early, message_seq) == self.early.len() {
                let ghost early = self@.early;
                self.early.push(message);
                assert(self@.early =~= early.push(message@));
            }
            Ok(())
        } else {
            match self.handle_next(&message) {
                Err(error) => Err(error),
                Ok(()) => self.drain(),
            }
        }
    }

    /// Takes a message or a fragment of one.
    pub fn receive(&mut self, message: &HandshakeMessage) -> (result: Result<(), DtlsError>)
        ensures
            (Outcome { context: final(self)@, result }) == old(self)@.received(message@),
    {
        if (message.message_seq as u32) < self.recv_message_seq {
            return Ok(());
        }
        if message.fragment_offset == 0 && message.fragment_length == message.total_length {
            let body: Vec<u8> = slice_to_vec(as_slice(&message.body));
            return self.deliver(
                WholeMessage {
                    msg_type: message.msg_type,
                    message_seq: message.message_seq,
                    body,
                },
            );
        }
        match self.reassembly.push(
            message.message_seq,
            message.total_length,
            message.fragment_offset,
            as_slice(&message.body),
        ) {
            Err(error) => Err(error),
            Ok(None) => Ok(()),
            Ok(Some(body)) => self.deliver(
                WholeMessage {
                    msg_type: message.msg_type,
                    message_seq: message.message_seq,
                    body,
                },
            ),
        }
    }

    /// Takes the messages, or fragments of messages, in a payload one after
    /// another.
    pub fn process_handshake_payload(&mut self, payload: Bytes) -> (result: Result<(), DtlsError>)
        ensures
            (Outcome { context: final(self)@, result }) == old(self)@.processed(
                bytes_contents(payload),
            ),
    {
        let mut rest: Bytes = payload;
        loop
            invariant
                self@.processed(bytes_contents(rest)) == old(self)@.processed(
                    bytes_contents(payload),
                ),
            decreases bytes_contents(rest).len(),
        {
            let ghost data = bytes_contents(rest);
            match HandshakeMessage::decode(&mut rest) {
                Err(error) => return Err(error),
                Ok(None) => return Ok(()),
                Ok(Some(message)) => {
                    proof {
                        decoding_is_unambiguous(
                            data,
                            message@,
                            choose|other: HandshakeMessageView| starts_with_message(data, other),
                        );
                    }
                    match self.receive(&message) {
                        Err(error) => return Err(error),
                        Ok(()) => {},
                    }
                },
            }
        }
    }
}

/// Makes a hello that offers `cipher_suites`, with a fresh random, and hands it to
/// a server. Fails before that only if the operating system has no random bytes to
/// give.
pub fn server_handle_client_hello(server: &mut HandshakeContext, cipher_suites: Vec<u16>) -> (result:
    Result<(), DtlsError>)
    requires
        cipher_suites@.len() < 0x8000,
    ensures
        match result {
            Ok(()) => {
                &&& negotiated(cipher_suites@) is Some
                &&& exists|random: Seq<u8>|
                    {
                        &&& random.len() == 32
                        &&& final(server)@ == #[trigger] old(server)@.agreed(
                            random,
                            negotiated(cipher_suites@)->0,
                        )
                    }
            },
            Err(DtlsError::RandomUnavailable) => *final(server) == *old(server),
            Err(error) => {
                &&& negotiated(cipher_suites@) is None
                &&& error == DtlsError::NoSharedCipherSuite
                &&& final(server)@ == old(server)@.failed(error).context
            },
        },
{
    let random: Random = match Random::new() {
        Ok(random) => random,
        Err(error) => return Err(error),
    };
    proof {
        let hello = plain_client_hello(random.bytes@, cipher_suites@);
        assert(random.bytes@.len() == 32);
        client_hello_round_trip(hello);
    }
    server_handle_hello_with(server, random, cipher_suites)
}

/// Makes a hello with this random that offers `cipher_suites`, and hands it to a
/// server.
pub fn server_handle_hello_with(
    server: &mut HandshakeContext,
    random: Random,
    cipher_suites: Vec<u16>,
) -> (result: Result<(), DtlsError>)
    requires
        cipher_suites@.len() < 0x8000,
    ensures
        (Outcome { context: final(server)@, result }) == old(server)@.after_client_hello(
            plain_client_hello(random.bytes@, cipher_suites@).encoded(),
        ),
{
    let message: HandshakeMessage = client_hello_with(random, cipher_suites);
    server.handle_client_hello(as_slice(&message.body))
}

/// Whether two byte strings are equal.
fn same_bytes(one: &[u8], other: &[u8]) -> (same: bool)
    ensures
        same == (one@ == other@),
{
    if one.len() != other.len() {
        return false;
    }
    for i in 0..one.len()
        invariant
            one@.len() == other@.len(),
            forall|j: int| 0 <= j < i ==> one@[j] == other@[j],
    {
        if one[i] != other[i] {
            return false;
        }
    }
    assert(one@ =~= other@);
    true
}

} // verus!
