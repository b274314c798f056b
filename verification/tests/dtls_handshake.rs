//! Handshake messages, their reassembly and order, negotiation and key exchange.

use bytes::{Bytes, BytesMut};
use p256::ecdh::EphemeralSecret;
use p256::ecdsa::signature::RandomizedSigner;
use p256::ecdsa::SigningKey;
use p256::elliptic_curve::rand_core::OsRng;
use p256::elliptic_curve::sec1::ToEncodedPoint;

use rustrtc::transports::dtls::context::server_handle_hello_with;
use rustrtc::transports::dtls::key_exchange::{signature_verdict, verify_signature_with_key};
use rustrtc::transports::dtls::messages::{
    client_hello_with, handshake_record, server_hello_with, unfragmented,
};
use rustrtc::transports::dtls::x509::certificate_public_key;
use rustrtc::transports::dtls::{
    alert_for, fingerprint, fragmented_message, negotiate_cipher_suite,
    server_flight, server_handle_client_hello, server_hello_message, verify_server_key_exchange_signature, CertificateMessage, ClientHello,
    ContentType, DtlsError, DtlsRecord, DtlsState, Fragments, HandshakeContext, HandshakeMessage,
    HandshakeReassembly, HandshakeType, ProtocolVersion, Random, ServerHello, ServerKeyExchange,
    MAX_HANDSHAKE_MESSAGE_LEN,
};

fn public_key_of(signing_key: &SigningKey) -> Vec<u8> {
    signing_key
        .verifying_key()
        .to_encoded_point(false)
        .as_bytes()
        .to_vec()
}

/// A self-signed certificate for a P-256 key, which stands at [`KEY_AT`].
const CERTIFICATE: [u8; 380] = [
    0x30, 0x82, 0x01, 0x78, 0x30, 0x82, 0x01, 0x1f, 0xa0, 0x03, 0x02, 0x01,
    0x02, 0x02, 0x14, 0x1a, 0xab, 0x00, 0x52, 0xdb, 0xfc, 0x99, 0xfa, 0x0b,
    0x77, 0xf4, 0x70, 0xf3, 0x65, 0x67, 0x09, 0x2f, 0x39, 0x26, 0xa8, 0x30,
    0x0a, 0x06, 0x08, 0x2a, 0x86, 0x48, 0xce, 0x3d, 0x04, 0x03, 0x02, 0x30,
    0x12, 0x31, 0x10, 0x30, 0x0e, 0x06, 0x03, 0x55, 0x04, 0x03, 0x0c, 0x07,
    0x72, 0x75, 0x73, 0x74, 0x72, 0x74, 0x63, 0x30, 0x1e, 0x17, 0x0d, 0x32,
    0x36, 0x31, 0x31, 0x31, 0x35, 0x31, 0x35, 0x30, 0x36, 0x32, 0x35, 0x5a,
    0x17, 0x0d, 0x33, 0x36, 0x31, 0x31, 0x31, 0x32, 0x31, 0x35, 0x30, 0x36,
    0x32, 0x35, 0x5a, 0x30, 0x12, 0x31, 0x10, 0x30, 0x0e, 0x06, 0x03, 0x55,
    0x04, 0x03, 0x0c, 0x07, 0x72, 0x75, 0x73, 0x74, 0x72, 0x74, 0x63, 0x30,
    0x59, 0x30, 0x13, 0x06, 0x07, 0x2a, 0x86, 0x48, 0xce, 0x3d, 0x02, 0x01,
    0x06, 0x08, 0x2a, 0x86, 0x48, 0xce, 0x3d, 0x03, 0x01, 0x07, 0x03, 0x42,
    0x00, 0x04, 0x68, 0x6a, 0xe6, 0x25, 0x76, 0x27, 0x59, 0x7d, 0x93, 0x7c,
    0xd0, 0x14, 0xbd, 0x75, 0xfe, 0xe7, 0xdc, 0x0d, 0xff, 0x80, 0xad, 0xcf,
    0xea, 0x5e, 0x8d, 0x84, 0x18, 0xc2, 0x9c, 0x64, 0xc6, 0xfa, 0x55, 0x70,
    0xd9, 0x5f, 0xe2, 0xde, 0xf7, 0x24, 0x95, 0x86, 0x92, 0x06, 0x20, 0x72,
    0x70, 0x0c, 0xb4, 0x00, 0x8b, 0x95, 0x5d, 0x0a, 0xf0, 0xa3, 0x4a, 0x9a,
    0xf9, 0xbc, 0xbe, 0xb2, 0x63, 0xdd, 0xa3, 0x53, 0x30, 0x51, 0x30, 0x1d,
    0x06, 0x03, 0x55, 0x1d, 0x0e, 0x04, 0x16, 0x04, 0x14, 0x37, 0x29, 0xb1,
    0x4a, 0xda, 0x28, 0xda, 0xe0, 0x2f, 0x12, 0x28, 0xe0, 0x75, 0x23, 0x74,
    0xbc, 0xc4, 0x9c, 0xa0, 0x3e, 0x30, 0x1f, 0x06, 0x03, 0x55, 0x1d, 0x23,
    0x04, 0x18, 0x30, 0x16, 0x80, 0x14, 0x37, 0x29, 0xb1, 0x4a, 0xda, 0x28,
    0xda, 0xe0, 0x2f, 0x12, 0x28, 0xe0, 0x75, 0x23, 0x74, 0xbc, 0xc4, 0x9c,
    0xa0, 0x3e, 0x30, 0x0f, 0x06, 0x03, 0x55, 0x1d, 0x13, 0x01, 0x01, 0xff,
    0x04, 0x05, 0x30, 0x03, 0x01, 0x01, 0xff, 0x30, 0x0a, 0x06, 0x08, 0x2a,
    0x86, 0x48, 0xce, 0x3d, 0x04, 0x03, 0x02, 0x03, 0x47, 0x00, 0x30, 0x44,
    0x02, 0x20, 0x45, 0x74, 0xa8, 0x11, 0xd8, 0x7d, 0x89, 0x84, 0x28, 0x36,
    0x8e, 0x76, 0xc7, 0x06, 0x85, 0x5e, 0x80, 0x50, 0xbc, 0xa3, 0x8b, 0xf6,
    0x05, 0xc1, 0xa3, 0xf2, 0xec, 0x67, 0xb3, 0x05, 0x96, 0xc3, 0x02, 0x20,
    0x1d, 0xb1, 0xe9, 0x2d, 0x23, 0x96, 0x3c, 0x04, 0xbe, 0x91, 0xbc, 0xef,
    0x31, 0xab, 0x3b, 0x6c, 0xa1, 0x81, 0xe4, 0xc9, 0x3c, 0xa6, 0x6a, 0xb6,
    0xca, 0x4d, 0x0a, 0x43, 0x15, 0x55, 0x83, 0x2e,
];

/// Where the key of [`CERTIFICATE`] starts.
const KEY_AT: usize = 145;

/// A certificate for this key.
fn certificate_for(signing_key: &SigningKey) -> Vec<u8> {
    let key = public_key_of(signing_key);
    let mut certificate = CERTIFICATE.to_vec();
    certificate[KEY_AT..KEY_AT + key.len()].copy_from_slice(&key);
    certificate
}

#[test]
fn test_verify_server_key_exchange_signature_rejects_tampering() {
    let signing_key = SigningKey::random(&mut OsRng);
    let certificate = certificate_for(&signing_key);
    let secret = EphemeralSecret::random(&mut OsRng);
    let public_key = secret
        .public_key()
        .to_encoded_point(false)
        .as_bytes()
        .to_vec();
    let client_random = Random::new().unwrap().to_bytes();
    let server_random = Random::new().unwrap().to_bytes();

    let mut signed_params = Vec::new();
    signed_params.extend_from_slice(&client_random);
    signed_params.extend_from_slice(&server_random);
    signed_params.push(3);
    signed_params.extend_from_slice(&23u16.to_be_bytes());
    signed_params.push(public_key.len() as u8);
    signed_params.extend_from_slice(&public_key);

    let signature: p256::ecdsa::Signature = signing_key.sign_with_rng(&mut OsRng, &signed_params);
    let server_key_exchange = ServerKeyExchange {
        curve_type: 3,
        named_curve: 23,
        public_key: public_key.clone(),
        signature: signature.to_der().as_bytes().to_vec(),
    };
    assert_eq!(
        server_key_exchange.signed_params(&client_random, &server_random),
        Ok(signed_params)
    );

    verify_server_key_exchange_signature(
        &certificate,
        &client_random,
        &server_random,
        &server_key_exchange,
    )
    .unwrap();

    let mut tampered = server_key_exchange.clone();
    tampered.public_key[0] ^= 0x01;

    let err = verify_server_key_exchange_signature(
        &certificate,
        &client_random,
        &server_random,
        &tampered,
    )
    .unwrap_err();

    assert!(err.to_string().contains("signature verification failed"));

    // Another signer, other randoms, a key that is no point and no signature.
    let other_certificate = certificate_for(&SigningKey::random(&mut OsRng));
    let mut pointless_certificate = certificate.clone();
    pointless_certificate[KEY_AT] = 9;
    for (certificate, client, server) in [
        (&other_certificate, &client_random, &server_random),
        (&certificate, &server_random, &server_random),
        (&certificate, &client_random, &client_random),
        (&pointless_certificate, &client_random, &server_random),
    ] {
        assert_eq!(
            verify_server_key_exchange_signature(
                certificate,
                client,
                server,
                &server_key_exchange
            ),
            Err(DtlsError::SignatureVerificationFailed)
        );
    }
    let mut unsigned = server_key_exchange.clone();
    unsigned.signature = vec![];
    assert_eq!(
        verify_server_key_exchange_signature(
            &certificate,
            &client_random,
            &server_random,
            &unsigned
        ),
        Err(DtlsError::SignatureVerificationFailed)
    );

    // The key alone, and what is no certificate.
    let signer_key = public_key_of(&signing_key);
    assert_eq!(
        verify_signature_with_key(
            &signer_key,
            &client_random,
            &server_random,
            &server_key_exchange
        ),
        Ok(())
    );
    assert_eq!(
        verify_server_key_exchange_signature(
            &signer_key,
            &client_random,
            &server_random,
            &server_key_exchange
        ),
        Err(DtlsError::MalformedCertificate)
    );
}

#[test]
fn test_verify_server_key_exchange_signature_rejects_oversized_public_key() {
    let certificate = certificate_for(&SigningKey::random(&mut OsRng));
    let client_random = Random::new().unwrap().to_bytes();
    let server_random = Random::new().unwrap().to_bytes();

    // Build a ServerKeyExchange with a public key that exceeds 255 bytes.
    let oversized_key = vec![0x04u8; 256];
    let server_key_exchange = ServerKeyExchange {
        curve_type: 3,
        named_curve: 23,
        public_key: oversized_key,
        signature: vec![],
    };

    let err = verify_server_key_exchange_signature(
        &certificate,
        &client_random,
        &server_random,
        &server_key_exchange,
    )
    .unwrap_err();

    assert!(
        err.to_string().contains("too long"),
        "expected 'too long' error, got: {}",
        err.to_string()
    );
    assert_eq!(
        verify_server_key_exchange_signature(
            &[],
            &client_random,
            &server_random,
            &server_key_exchange
        ),
        Err(DtlsError::PublicKeyTooLong)
    );
}

#[test]
fn certificate_holds_its_key() {
    let key = &CERTIFICATE[KEY_AT..KEY_AT + 65];
    assert_eq!(certificate_public_key(&CERTIFICATE), Some(key));

    // A byte too few, a byte too many, another curve, unused bits.
    assert_eq!(certificate_public_key(&CERTIFICATE[..379]), None);
    let mut longer = CERTIFICATE.to_vec();
    longer.push(0);
    assert_eq!(certificate_public_key(&longer), None);
    for at in [KEY_AT - 4, KEY_AT - 1] {
        let mut broken = CERTIFICATE;
        broken[at] += 1;
        assert_eq!(certificate_public_key(&broken), None);
    }

    // The same certificate without its version.
    let mut first_version = CERTIFICATE.to_vec();
    first_version.drain(8..13);
    first_version[3] -= 5;
    first_version[7] -= 5;
    assert_eq!(certificate_public_key(&first_version), Some(key));

    // Lengths in more bytes than it takes are not read.
    assert_eq!(certificate_public_key(&[0x30, 0x81, 0x00]), None);
    assert_eq!(certificate_public_key(&[0x30, 0x80]), None);
    assert_eq!(certificate_public_key(&[]), None);
}

#[test]
fn signature_verdicts() {
    assert_eq!(signature_verdict(true), Ok(()));
    assert_eq!(
        signature_verdict(false),
        Err(DtlsError::SignatureVerificationFailed)
    );
}

#[test]
fn randoms_differ() {
    assert_ne!(
        Random::new().unwrap().to_bytes(),
        Random::new().unwrap().to_bytes()
    );
}

#[test]
fn random_is_made_of_the_drawn_bytes() {
    let drawn: [u8; 32] = std::array::from_fn(|i| i as u8);
    assert_eq!(Random::from_drawn(Some(drawn)).unwrap().to_bytes(), drawn);
    assert_eq!(
        Random::from_drawn(None),
        Err(DtlsError::RandomUnavailable)
    );
}

#[test]
fn reassembly_completes_in_order() {
    let Fragments { f1, f2, full } = fragmented_message(0, 100, 40);
    let mut r = HandshakeReassembly::default();

    assert!(r
        .push(0, 100, f1.fragment_offset, &f1.body)
        .unwrap()
        .is_none());
    let done = r
        .push(0, 100, f2.fragment_offset, &f2.body)
        .unwrap()
        .expect("complete");
    assert_eq!(done.len(), 100);
    assert_eq!(done, full);
}

#[test]
fn reassembly_completes_out_of_order() {
    let Fragments { f1, f2, full } = fragmented_message(0, 100, 40);
    let mut r = HandshakeReassembly::default();

    // Second fragment arrives first — must be buffered, not dropped.
    assert!(r
        .push(0, 100, f2.fragment_offset, &f2.body)
        .unwrap()
        .is_none());
    let done = r
        .push(0, 100, f1.fragment_offset, &f1.body)
        .unwrap()
        .expect("complete");
    assert_eq!(done.len(), 100);
    assert_eq!(done, full);
}

#[test]
fn reassembly_ignores_duplicate_fragments() {
    let Fragments { f1, f2, .. } = fragmented_message(0, 100, 40);
    let mut r = HandshakeReassembly::default();

    assert!(r
        .push(0, 100, f1.fragment_offset, &f1.body)
        .unwrap()
        .is_none());
    // Same fragment again: idempotent, no accounting drift.
    assert!(r
        .push(0, 100, f1.fragment_offset, &f1.body)
        .unwrap()
        .is_none());
    let done = r
        .push(0, 100, f2.fragment_offset, &f2.body)
        .unwrap()
        .expect("complete");
    assert_eq!(done.len(), 100);
}

#[test]
fn reassembly_resets_on_new_message_seq() {
    let Fragments { f1, .. } = fragmented_message(0, 100, 40);
    let Fragments {
        f1: g1,
        f2: g2,
        full,
    } = fragmented_message(1, 60, 30);
    let mut r = HandshakeReassembly::default();

    assert!(r
        .push(0, 100, f1.fragment_offset, &f1.body)
        .unwrap()
        .is_none());
    // A different message seq starts a fresh reassembly.
    assert!(r
        .push(1, 60, g1.fragment_offset, &g1.body)
        .unwrap()
        .is_none());
    let done = r
        .push(1, 60, g2.fragment_offset, &g2.body)
        .unwrap()
        .expect("complete");
    assert_eq!(done.len(), 60);
    assert_eq!(done, full);
}

#[test]
fn reassembly_rejects_oversized_and_overrun() {
    let mut r = HandshakeReassembly::default();
    assert!(r
        .push(0, MAX_HANDSHAKE_MESSAGE_LEN + 1, 0, &[0u8; 8])
        .is_err());
    assert!(
        r.push(0, 10, 8, &[0u8; 8]).is_err(),
        "offset+len exceeds total"
    );
    assert_eq!(
        r.push(0, MAX_HANDSHAKE_MESSAGE_LEN + 1, 0, &[0u8; 8]),
        Err(DtlsError::MessageTooLong)
    );
    assert_eq!(r.push(0, 10, 8, &[0u8; 8]), Err(DtlsError::FragmentOverrun));
    assert_eq!(r.push(0, 2, 0, &[5, 6]), Ok(Some(vec![5, 6])));
}

#[test]
fn reassembly_rejects_total_length_change_for_same_seq() {
    let Fragments { f1, .. } = fragmented_message(0, 100, 40);
    let mut r = HandshakeReassembly::default();
    assert!(r
        .push(0, 100, f1.fragment_offset, &f1.body)
        .unwrap()
        .is_none());
    // A fragment that fits both the old (100) and tampered (90) totals, so
    // the rejection can only come from the consistency check.
    let err = r
        .push(0, 90, 40, &[7u8; 30])
        .expect_err("total_length change must be rejected");
    assert!(
        err.to_string().contains("changed total_length"),
        "{}",
        err.to_string()
    );
}

#[test]
fn reassembly_takes_overlapping_fragments_in_any_order() {
    let full: Vec<u8> = (0..10).collect();
    let parts: [(usize, usize); 4] = [(6, 10), (0, 3), (2, 5), (4, 7)];
    let mut r = HandshakeReassembly::default();
    let mut done = None;
    for (from, to) in parts {
        assert!(done.is_none());
        done = r.push(3, 10, from as u32, &full[from..to]).unwrap();
    }
    assert_eq!(done, Some(full));
}

#[test]
fn empty_message_is_complete_at_once() {
    let mut r = HandshakeReassembly::default();
    assert_eq!(r.push(0, 0, 0, &[]), Ok(Some(vec![])));
}

#[test]
fn negotiate_cipher_suite_accepts_only_supported_suite() {
    assert_eq!(negotiate_cipher_suite(&[0xC02B]), Some(0xC02B));
    assert_eq!(
        negotiate_cipher_suite(&[0xC02F, 0xC02B, 0x009C]),
        Some(0xC02B),
        "supported suite anywhere in the offer wins"
    );
    assert_eq!(negotiate_cipher_suite(&[0xC02F, 0x009C]), None);
    assert_eq!(negotiate_cipher_suite(&[]), None);
}

#[test]
fn test_server_accepts_client_hello_offering_supported_suite() {
    let mut server = HandshakeContext::new(false, None);
    // Supported suite anywhere in the offer is enough — extra suites must not
    // break negotiation.
    server_handle_client_hello(&mut server, vec![0x1301, 0xC02F, 0xC02B])
        .expect("ServerHello flight built for an offering client");
    assert_eq!(server.cipher_suite, Some(0xC02B));
    assert!(server.client_random.is_some());
    assert_eq!(server.state, DtlsState::Handshaking);
}

#[test]
fn test_server_rejects_client_hello_without_supported_suite() {
    let mut server = HandshakeContext::new(false, None);
    let result = server_handle_client_hello(&mut server, vec![0x1301, 0x009C]);
    assert!(
        result.is_err(),
        "handshake must fail loudly when no suite is shared"
    );
    assert!(
        matches!(server.state, DtlsState::Failed),
        "transport must transition to Failed"
    );
    assert!(server.client_random.is_none());

    // A fatal handshake_failure alert (content type 21) must reach the peer.
    let alert = alert_for(result.unwrap_err(), 0).expect("an alert for the peer");
    let mut buf = BytesMut::new();
    alert.encode(&mut buf);
    let len = buf.len();
    assert_eq!(buf[0], 21, "expected a DTLS alert record, got {}", buf[0]);
    assert_eq!(&buf[len - 2..len], &[2, 40], "fatal handshake_failure");
}

#[test]
fn only_a_missing_shared_suite_is_answered_with_an_alert() {
    assert!(alert_for(DtlsError::MalformedMessage, 0).is_none());
    assert!(alert_for(DtlsError::UnsupportedCipherSuite(1), 0).is_none());
    assert_eq!(
        alert_for(DtlsError::NoSharedCipherSuite, 7)
            .unwrap()
            .sequence_number,
        7
    );
}

#[test]
fn test_server_accepts_mainstream_client_hello_suite_offers() {
    // pion/dtls v2.2.12 defaultCipherSuites() (also pion/webrtc's offer).
    let pion: Vec<u16> = vec![0xC02B, 0xC02F, 0xC024, 0xC028, 0xC02C, 0xC030];
    // webrtc-rs dtls 0.17.1 default_cipher_suites().
    let webrtcrs: Vec<u16> = vec![0xC02B, 0xC00A, 0xC02F, 0xC014, 0xCCA9];
    // Chromium/libwebrtc DTLS profile: ECDSA AES-GCM + ChaCha20 only.
    let chrome: Vec<u16> = vec![0xC02B, 0xCCA9];
    // Firefox: adds the AES-256-GCM ECDSA variant.
    let firefox: Vec<u16> = vec![0xC02B, 0xCCA9, 0xC02C];

    for (name, suites) in [
        ("pion", pion),
        ("webrtc-rs", webrtcrs),
        ("chrome", chrome),
        ("firefox", firefox),
    ] {
        let mut server = HandshakeContext::new(false, None);
        server_handle_client_hello(&mut server, suites)
            .unwrap_or_else(|e| panic!("{name} suite offer must negotiate, got: {e:?}"));
    }
}

#[test]
fn test_server_processes_fragmented_out_of_order_client_hello() {
    let mut server = HandshakeContext::new(false, None);

    // Build a ClientHello and split its body into two handshake fragments.
    let client_hello = ClientHello {
        version: ProtocolVersion::dtls_1_2(),
        random: Random::new().unwrap(),
        session_id: vec![],
        cookie: vec![],
        cipher_suites: vec![0xC02B, 0xCCA9],
        compression_methods: vec![0],
        extensions: vec![],
    };
    let mut body = BytesMut::new();
    client_hello.encode(&mut body);
    let body = body.freeze();
    let split = body.len() / 2;

    let fragment_record = |offset: u32, part: &[u8], record_seq: u64| -> Vec<u8> {
        let msg = HandshakeMessage {
            msg_type: HandshakeType::ClientHello,
            message_seq: 0,
            fragment_offset: offset,
            fragment_length: part.len() as u32,
            total_length: body.len() as u32,
            body: Bytes::copy_from_slice(part),
        };
        let mut handshake_buf = BytesMut::new();
        msg.encode(&mut handshake_buf);
        let record = DtlsRecord {
            content_type: ContentType::Handshake,
            version: ProtocolVersion::dtls_1_2(),
            epoch: 0,
            sequence_number: record_seq,
            payload: handshake_buf.freeze(),
        };
        let mut buf = BytesMut::new();
        record.encode(&mut buf);
        buf.to_vec()
    };

    let second = fragment_record(split as u32, &body[split..], 1);
    let first = fragment_record(0, &body[..split], 0);

    // Deliver the second fragment's record BEFORE the first one.
    for datagram in [second, first] {
        assert!(server.client_random.is_none());
        let mut data = Bytes::copy_from_slice(&datagram);
        let record = DtlsRecord::decode(&mut data).unwrap().unwrap();
        assert!(data.is_empty());
        assert_eq!(record.content_type, ContentType::Handshake);
        server.process_handshake_payload(record.payload).unwrap();
    }

    assert_eq!(
        server.client_random.map(|random| random.to_bytes()),
        Some(client_hello.random.to_bytes())
    );
    assert_eq!(server.cipher_suite, Some(0xC02B));
    assert_eq!(server.recv_message_seq, 1);
    assert!(
        !matches!(server.state, DtlsState::Failed | DtlsState::Closed),
        "server must not fail on reordered fragments"
    );

    // The server must answer its flight (a Handshake record, content type 22).
    let flight = server_flight(
        Random::new().unwrap(),
        server.cipher_suite.unwrap(),
        &CertificateMessage {
            certificates: vec![CERTIFICATE.to_vec()],
        },
        &ServerKeyExchange {
            curve_type: 3,
            named_curve: 23,
            public_key: vec![4; 65],
            signature: vec![0; 70],
        },
    );
    let mut buf = BytesMut::new();
    handshake_record(&flight[0], 0).encode(&mut buf);
    let len = buf.len();
    assert_eq!(buf[0], 22, "expected a Handshake record, got {}", buf[0]);
    assert!(len > 12, "flight must carry a ServerHello");
    let record = DtlsRecord::decode(&mut buf.freeze()).unwrap().unwrap();
    let mut payload = record.payload;
    let answer = HandshakeMessage::decode(&mut payload).unwrap().unwrap();
    assert_eq!(answer.msg_type, HandshakeType::ServerHello);
    assert_eq!(ServerHello::decode(&answer.body).unwrap().cipher_suite, 0xC02B);
}

#[test]
fn handshake_header_length_field_is_total_length_for_fragments() {
    let frag = HandshakeMessage {
        msg_type: HandshakeType::ClientHello,
        message_seq: 0,
        fragment_offset: 40,
        fragment_length: 60,
        total_length: 100,
        body: Bytes::from(vec![0u8; 60]),
    };
    let mut buf = BytesMut::new();
    frag.encode(&mut buf);

    // Decode back and verify the header semantics survived the round trip.
    let mut reader = Bytes::copy_from_slice(&buf);
    let decoded = HandshakeMessage::decode(&mut reader)
        .unwrap()
        .expect("some msg");
    assert_eq!(decoded.total_length, 100, "total length preserved");
    assert_eq!(decoded.fragment_offset, 40);
    assert_eq!(decoded.fragment_length, 60);

    // And the on-wire 24-bit length field itself (bytes 1..4) must be the
    // total length, not the fragment length.
    let wire_len = ((buf[1] as u32) << 16) | ((buf[2] as u32) << 8) | buf[3] as u32;
    assert_eq!(
        wire_len, 100,
        "wire length field must carry the message total"
    );
}

#[test]
fn client_rejects_server_hello_with_unsupported_suite() {
    let mut ctx = HandshakeContext::new(true, None);
    let res = ctx.handle_server_hello(&server_hello_message(0xC02F).unwrap().body);
    assert!(res.is_err(), "unsupported suite must abort the handshake");
    assert_eq!(res, Err(DtlsError::UnsupportedCipherSuite(0xC02F)));
    assert!(
        matches!(ctx.state, DtlsState::Failed),
        "client transport must transition to Failed"
    );
    assert!(
        ctx.server_random.is_none(),
        "no state may leak on rejection"
    );
}

#[test]
fn client_accepts_server_hello_with_supported_suite() {
    let mut ctx = HandshakeContext::new(true, None);
    ctx.handle_server_hello(&server_hello_message(0xC02B).unwrap().body)
        .unwrap();
    assert!(ctx.server_random.is_some(), "ServerHello state recorded");
}

fn certificate_flight_message(certificates: Vec<Vec<u8>>) -> HandshakeMessage {
    let mut cert_body = BytesMut::new();
    CertificateMessage { certificates }.encode(&mut cert_body);
    HandshakeMessage {
        msg_type: HandshakeType::Certificate,
        message_seq: 1,
        fragment_offset: 0,
        fragment_length: cert_body.len() as u32,
        total_length: cert_body.len() as u32,
        body: cert_body.freeze(),
    }
}

#[test]
fn client_processes_reordered_server_flight() {
    let own_cert = vec![0x30u8, 0x82, 0x01, 0x02];
    let server_hello = server_hello_message(0xC02B).unwrap();
    let certificate = certificate_flight_message(vec![own_cert.clone()]);

    // Deliver Certificate (seq 1) BEFORE ServerHello (seq 0) in one payload.
    let mut payload = BytesMut::new();
    certificate.encode(&mut payload);
    server_hello.encode(&mut payload);

    let mut ctx = HandshakeContext::new(true, None);
    ctx.process_handshake_payload(payload.freeze()).unwrap();

    assert!(ctx.server_random.is_some(), "ServerHello processed");
    assert!(
        ctx.peer_certificate.is_some(),
        "buffered Certificate drained after the gap closed"
    );
    assert_eq!(ctx.recv_message_seq, 2);
    assert_eq!(ctx.peer_certificate, Some(own_cert));
    assert!(ctx.early.is_empty());
}

#[test]
fn flight_in_any_order_and_repeated_is_handled_once() {
    let hello = server_hello_with(Random { bytes: [9; 32] }, 0xC02B);
    let certificate = certificate_flight_message(vec![vec![1, 2, 3], vec![4]]);
    let done = unfragmented(HandshakeType::ServerHelloDone, 2, BytesMut::new());
    let flight = [&hello, &certificate, &done];
    for order in [
        vec![0, 1, 2],
        vec![2, 1, 0],
        vec![1, 2, 1, 0],
        vec![2, 0, 0, 2, 1, 2],
    ] {
        let mut ctx = HandshakeContext::new(true, None);
        for i in order {
            ctx.receive(flight[i]).unwrap();
        }
        assert_eq!(ctx.recv_message_seq, 3);
        assert_eq!(ctx.server_random, Some(Random { bytes: [9; 32] }));
        assert_eq!(ctx.peer_certificate, Some(vec![1, 2, 3]));
        assert!(ctx.early.is_empty());
    }
}

#[test]
fn handled_message_is_ignored() {
    let mut ctx = HandshakeContext::new(true, None);
    ctx.receive(&server_hello_with(Random { bytes: [1; 32] }, 0xC02B))
        .unwrap();
    ctx.receive(&server_hello_with(Random { bytes: [2; 32] }, 0xC02F))
        .unwrap();
    assert_eq!(ctx.server_random, Some(Random { bytes: [1; 32] }));
    assert_eq!(ctx.state, DtlsState::Handshaking);
    assert_eq!(ctx.recv_message_seq, 1);
}

#[test]
fn early_failure_comes_when_its_turn_has_come() {
    let mut ctx = HandshakeContext::new(true, None);
    ctx.receive(&certificate_flight_message(vec![])).unwrap();
    assert_eq!(
        ctx.receive(&server_hello_with(Random { bytes: [1; 32] }, 0xC02B)),
        Err(DtlsError::NoCertificate)
    );
    assert_eq!(ctx.recv_message_seq, 1);
    assert!(ctx.peer_certificate.is_none());
}

#[test]
fn malformed_messages_are_rejected() {
    let mut client = HandshakeContext::new(true, None);
    assert_eq!(
        client.handle_server_hello(&[0; 10]),
        Err(DtlsError::MalformedMessage)
    );
    assert_eq!(
        client.handle_certificate(&[0, 0, 1]),
        Err(DtlsError::MalformedMessage)
    );
    assert_eq!(client.state, DtlsState::Handshaking);
    let mut server = HandshakeContext::new(false, None);
    assert_eq!(
        server.handle_client_hello(&[]),
        Err(DtlsError::MalformedMessage)
    );
    assert_eq!(
        server.process_handshake_payload(Bytes::from(vec![99, 0, 0, 0, 0, 0, 0, 0, 0, 0, 0, 0])),
        Err(DtlsError::UnknownHandshakeType(99))
    );
    assert_eq!(
        server.process_handshake_payload(Bytes::from(vec![1, 0, 0])),
        Ok(())
    );
}

#[test]
fn refused_fragments_leave_the_handshake_as_it_is() {
    let Fragments { f1, mut f2, .. } = fragmented_message(0, 100, 40);
    let mut ctx = HandshakeContext::new(false, None);
    ctx.receive(&f1).unwrap();
    f2.total_length = 99;
    f2.fragment_offset = 39;
    assert_eq!(ctx.receive(&f2), Err(DtlsError::TotalLengthChanged));
    f2.total_length = 100;
    f2.fragment_offset = 40;
    ctx.receive(&f2).unwrap();
    assert_eq!(ctx.recv_message_seq, 1);
}

#[test]
fn test_dtls_handshake_fails_on_fingerprint_mismatch() {
    let mut wrong_cert = CERTIFICATE.to_vec();
    wrong_cert[KEY_AT] += 1;
    let mut client = HandshakeContext::new(true, Some(fingerprint(&wrong_cert)));
    client
        .receive(&server_hello_with(Random { bytes: [1; 32] }, 0xC02B))
        .unwrap();
    assert_eq!(
        client.receive(&certificate_flight_message(vec![CERTIFICATE.to_vec()])),
        Err(DtlsError::FingerprintMismatch)
    );
    assert!(matches!(client.state, DtlsState::Failed));
    assert!(client.peer_certificate.is_none());
}

#[test]
fn test_dtls_handshake_no_fingerprint_skips_check() {
    for expected in [None, Some(fingerprint(&CERTIFICATE))] {
        let mut client = HandshakeContext::new(true, expected);
        client
            .receive(&server_hello_with(Random { bytes: [1; 32] }, 0xC02B))
            .unwrap();
        client
            .receive(&certificate_flight_message(vec![CERTIFICATE.to_vec()]))
            .unwrap();
        assert_eq!(client.peer_certificate, Some(CERTIFICATE.to_vec()));
        assert_eq!(client.state, DtlsState::Handshaking);
    }
}

#[test]
fn fingerprint_is_the_sha256_digest() {
    assert_eq!(
        fingerprint(b"abc"),
        vec![
            0xba, 0x78, 0x16, 0xbf, 0x8f, 0x01, 0xcf, 0xea, 0x41, 0x41, 0x40, 0xde, 0x5d, 0xae,
            0x22, 0x23, 0xb0, 0x03, 0x61, 0xa3, 0x96, 0x17, 0x7a, 0x9c, 0xb4, 0x10, 0xff, 0x61,
            0xf2, 0x00, 0x15, 0xad,
        ]
    );
}

#[test]
fn fingerprint_binds_certificate() {
    let mut any = HandshakeContext::new(true, None);
    assert_eq!(any.check_fingerprint(&[1, 2, 3]), Ok(()));

    let mut bound = HandshakeContext::new(true, Some(vec![1, 2, 3]));
    assert_eq!(bound.check_fingerprint(&[1, 2, 3]), Ok(()));
    assert_eq!(bound.state, DtlsState::Handshaking);
    assert_eq!(
        bound.check_fingerprint(&[1, 2, 4]),
        Err(DtlsError::FingerprintMismatch)
    );
    assert_eq!(bound.state, DtlsState::Failed);
    let mut short = HandshakeContext::new(true, Some(vec![1, 2, 3]));
    assert!(short.check_fingerprint(&[1, 2]).is_err());
}

#[test]
fn certificate_is_taken_by_its_digest() {
    let body = certificate_flight_message(vec![vec![5, 6], vec![7]]).body;
    let mut bound = HandshakeContext::new(true, Some(vec![1, 2, 3]));
    assert_eq!(
        bound.handle_certificate_with_digest(&body, &[1, 2, 3]),
        Ok(())
    );
    assert_eq!(bound.peer_certificate, Some(vec![5, 6]));
    let mut other = HandshakeContext::new(true, Some(vec![1, 2, 3]));
    assert_eq!(
        other.handle_certificate_with_digest(&body, &[3, 2, 1]),
        Err(DtlsError::FingerprintMismatch)
    );
    assert_eq!(other.state, DtlsState::Failed);
    assert!(other.peer_certificate.is_none());
    assert_eq!(
        other.handle_certificate_with_digest(&[], &[3, 2, 1]),
        Err(DtlsError::MalformedMessage)
    );
}

#[test]
fn hello_with_a_given_random_is_handled() {
    let mut server = HandshakeContext::new(false, None);
    assert_eq!(
        server_handle_hello_with(&mut server, Random { bytes: [8; 32] }, vec![1, 0xC02B]),
        Ok(())
    );
    assert_eq!(server.client_random, Some(Random { bytes: [8; 32] }));
}

#[test]
fn server_flight_is_taken_by_the_client() {
    let key_exchange = ServerKeyExchange {
        curve_type: 3,
        named_curve: 23,
        public_key: vec![4, 5],
        signature: vec![6],
    };
    let flight = server_flight(
        Random { bytes: [9; 32] },
        0xC02B,
        &CertificateMessage {
            certificates: vec![CERTIFICATE.to_vec()],
        },
        &key_exchange,
    );
    let types: Vec<HandshakeType> = flight.iter().map(|message| message.msg_type).collect();
    assert_eq!(
        types,
        vec![
            HandshakeType::ServerHello,
            HandshakeType::Certificate,
            HandshakeType::ServerKeyExchange,
            HandshakeType::ServerHelloDone,
        ]
    );
    assert_eq!(
        &flight[2].body[..],
        &[3, 0, 23, 2, 4, 5, 4, 3, 0, 1, 6]
    );

    let mut client = HandshakeContext::new(true, Some(fingerprint(&CERTIFICATE)));
    for i in [3, 1, 2, 0] {
        client.receive(&flight[i]).unwrap();
    }
    assert_eq!(client.server_random, Some(Random { bytes: [9; 32] }));
    assert_eq!(client.peer_certificate, Some(CERTIFICATE.to_vec()));
    assert_eq!(client.recv_message_seq, 4);
}

#[test]
fn server_hello_on_the_wire() {
    let message = server_hello_with(Random { bytes: [0xAB; 32] }, 0xC02B);
    let mut expected = vec![254, 253];
    expected.extend_from_slice(&[0xAB; 32]);
    expected.extend_from_slice(&[0, 0xC0, 0x2B, 0]);
    assert_eq!(&message.body[..], &expected[..]);
    assert_eq!(message.message_seq, 0);
    assert_eq!(message.total_length, 38);

    let hello = ServerHello::decode(&message.body).unwrap();
    assert_eq!(hello.cipher_suite, 0xC02B);
    assert_eq!(hello.random.to_bytes(), [0xAB; 32]);
}

#[test]
fn client_hello_on_the_wire() {
    let message = client_hello_with(Random { bytes: [0xCD; 32] }, vec![0xC02B, 0xCCA9]);
    let mut expected = vec![254, 253];
    expected.extend_from_slice(&[0xCD; 32]);
    expected.extend_from_slice(&[0, 0, 0, 4, 0xC0, 0x2B, 0xCC, 0xA9, 1, 0]);
    assert_eq!(&message.body[..], &expected[..]);
}

#[test]
fn hellos_survive_a_round_trip() {
    let client_hello = ClientHello {
        version: ProtocolVersion::dtls_1_2(),
        random: Random { bytes: [3; 32] },
        session_id: vec![1, 2],
        cookie: vec![9; 20],
        cipher_suites: vec![1, 0xC02B],
        compression_methods: vec![0, 1],
        extensions: vec![0, 10, 0, 0],
    };
    let mut buf = BytesMut::new();
    client_hello.encode(&mut buf);
    let read = ClientHello::decode(&buf).unwrap();
    assert_eq!(read.session_id, vec![1, 2]);
    assert_eq!(read.cookie, vec![9; 20]);
    assert_eq!(read.cipher_suites, vec![1, 0xC02B]);
    assert_eq!(read.compression_methods, vec![0, 1]);
    assert_eq!(read.extensions, vec![0, 10, 0, 0]);
    assert!(ClientHello::decode(&buf[..buf.len() - 1]).is_err());

    let server_hello = ServerHello {
        version: ProtocolVersion::dtls_1_2(),
        random: Random { bytes: [4; 32] },
        session_id: vec![7],
        cipher_suite: 0x1234,
        compression_method: 1,
        extensions: vec![1, 2, 3],
    };
    let mut buf = BytesMut::new();
    server_hello.encode(&mut buf);
    let read = ServerHello::decode(&buf).unwrap();
    assert_eq!(read.session_id, vec![7]);
    assert_eq!(read.cipher_suite, 0x1234);
    assert_eq!(read.compression_method, 1);
    assert_eq!(read.extensions, vec![1, 2, 3]);
    assert!(ServerHello::decode(&buf[..buf.len() - 1]).is_err());
}

#[test]
fn certificate_chain_on_the_wire() {
    let message = CertificateMessage {
        certificates: vec![vec![7, 8], vec![9]],
    };
    let mut buf = BytesMut::new();
    message.encode(&mut buf);
    assert_eq!(&buf[..], &[0, 0, 9, 0, 0, 2, 7, 8, 0, 0, 1, 9]);
    let read = CertificateMessage::decode(&buf).unwrap();
    assert_eq!(read.certificates, vec![vec![7, 8], vec![9]]);
    for broken in [&buf[..11], &buf[..2], &[0u8, 0, 3, 0, 0, 1][..]] {
        assert!(CertificateMessage::decode(broken).is_err());
    }
}

#[test]
fn handshake_messages_are_read_one_by_one() {
    let Fragments { f1, f2, full } = fragmented_message(5, 300, 260);
    let mut buf = BytesMut::new();
    f1.encode(&mut buf);
    f2.encode(&mut buf);
    let mut reader = buf.freeze();
    let first = HandshakeMessage::decode(&mut reader).unwrap().unwrap();
    let second = HandshakeMessage::decode(&mut reader).unwrap().unwrap();
    assert_eq!(&first.body[..], &full[..260]);
    assert_eq!(&second.body[..], &full[260..]);
    assert_eq!(full[250], 250);
    assert_eq!(full[251], 0);
    assert_eq!(second.fragment_offset, 260);
    assert_eq!(second.message_seq, 5);
    assert!(HandshakeMessage::decode(&mut reader).unwrap().is_none());
}

#[test]
fn type_codes() {
    for (msg_type, code) in [
        (HandshakeType::HelloRequest, 0),
        (HandshakeType::ClientHello, 1),
        (HandshakeType::ServerHello, 2),
        (HandshakeType::HelloVerifyRequest, 3),
        (HandshakeType::Certificate, 11),
        (HandshakeType::ServerKeyExchange, 12),
        (HandshakeType::CertificateRequest, 13),
        (HandshakeType::ServerHelloDone, 14),
        (HandshakeType::CertificateVerify, 15),
        (HandshakeType::ClientKeyExchange, 16),
        (HandshakeType::Finished, 20),
    ] {
        assert_eq!(msg_type.code(), code);
        assert_eq!(HandshakeType::from_code(code), Some(msg_type));
    }
    assert_eq!(HandshakeType::from_code(4), None);
}

#[test]
fn signed_params_tell_key_exchanges_apart() {
    let one = ServerKeyExchange {
        curve_type: 3,
        named_curve: 0x0117,
        public_key: vec![4, 5],
        signature: vec![],
    };
    let params = one.signed_params(&[1; 32], &[2; 32]).unwrap();
    assert_eq!(&params[..32], &[1; 32]);
    assert_eq!(&params[32..64], &[2; 32]);
    assert_eq!(&params[64..], &[3, 0x01, 0x17, 2, 4, 5]);

    let mut other = one.clone();
    other.named_curve = 0x1701;
    assert_ne!(other.signed_params(&[1; 32], &[2; 32]).unwrap(), params);
    assert_ne!(one.signed_params(&[2; 32], &[1; 32]).unwrap(), params);

    let mut longest = one.clone();
    longest.public_key = vec![0; 255];
    assert!(longest.signed_params(&[1; 32], &[2; 32]).is_ok());
    longest.public_key.push(0);
    assert_eq!(
        longest.signed_params(&[1; 32], &[2; 32]),
        Err(DtlsError::PublicKeyTooLong)
    );
}

#[test]
fn errors_have_texts_of_their_own() {
    let errors = [
        DtlsError::MessageTooLong,
        DtlsError::FragmentOverrun,
        DtlsError::TotalLengthChanged,
        DtlsError::UnknownHandshakeType(9),
        DtlsError::UnknownContentType(9),
        DtlsError::MalformedMessage,
        DtlsError::RandomUnavailable,
        DtlsError::PublicKeyTooLong,
        DtlsError::SignatureVerificationFailed,
        DtlsError::NoSharedCipherSuite,
        DtlsError::UnsupportedCipherSuite(9),
        DtlsError::RecordTooLong,
        DtlsError::NoCertificate,
        DtlsError::FingerprintMismatch,
        DtlsError::CollectTimedOut,
        DtlsError::RecordTimedOut,
        DtlsError::ChannelClosed,
        DtlsError::MalformedCertificate,
        DtlsError::WaitElapsed,
        DtlsError::StateChannelClosed,
    ];
    for (i, one) in errors.iter().enumerate() {
        for other in &errors[..i] {
            assert_ne!(one.to_string(), other.to_string());
        }
    }
    assert_eq!(DtlsError::RecordTimedOut.to_string(), "record recv timeout");
    assert_eq!(DtlsError::ChannelClosed.to_string(), "DTLS channel closed");
}

#[test]
fn ended_handshake_stays_as_it_ended() {
    for (state, after) in [
        (DtlsState::Handshaking, DtlsState::Failed),
        (DtlsState::Connected, DtlsState::Failed),
        (DtlsState::Failed, DtlsState::Failed),
        (DtlsState::Closed, DtlsState::Closed),
    ] {
        let mut server = HandshakeContext::new(false, None);
        server.state = state;
        assert_eq!(
            server_handle_client_hello(&mut server, vec![0x009C]),
            Err(DtlsError::NoSharedCipherSuite)
        );
        assert_eq!(server.state, after);

        let mut client = HandshakeContext::new(true, Some(vec![1]));
        client.state = state;
        assert!(client
            .receive(&server_hello_with(Random { bytes: [1; 32] }, 0xC02F))
            .is_err());
        assert_eq!(client.state, after);
        assert!(client.check_fingerprint(&[2]).is_err());
        assert_eq!(client.state, after);
    }
}

#[test]
fn early_message_waits_once() {
    let mut client = HandshakeContext::new(true, None);
    for _ in 0..3 {
        client
            .receive(&certificate_flight_message(vec![vec![1]]))
            .unwrap();
    }
    assert_eq!(client.early.len(), 1);
}
