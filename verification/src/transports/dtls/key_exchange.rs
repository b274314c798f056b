//! The signed key exchange parameters of a server (RFC 8422, section 5.4).

use bytes::BytesMut;
use p256::ecdsa::signature::Verifier;
use p256::ecdsa::{Signature, VerifyingKey};

use vstd::prelude::*;

use crate::transports::dtls::buffer::{be16, bytes_mut_contents, put16, put8};
use crate::transports::dtls::error::DtlsError;
use crate::transports::dtls::vector::{put_vector16, put_vector8, vector16, vector8};
use crate::transports::dtls::x509::{certificate_key, certificate_public_key};

verus! {

/// A ServerKeyExchange.
#[derive(Debug, Clone)]
pub struct ServerKeyExchange {
    pub curve_type: u8,
    pub named_curve: u16,
    /// The server's ephemeral public key.
    pub public_key: Vec<u8>,
    /// ECDSA signature in DER.
    pub signature: Vec<u8>,
}

/// Whether P-256 ECDSA with SHA-256 accepts the DER `signature` of `message`
/// under the SEC1 public key `key`. Keys and signatures that cannot be parsed are
/// not accepted.
pub uninterp spec fn p256_accepts(key: Seq<u8>, message: Seq<u8>, signature: Seq<u8>) -> bool;

/// `VerifyingKey::from_sec1_bytes`, `Signature::from_der` and
/// `VerifyingKey::verify` of the `p256` crate, one after another: true exactly if
/// all three succeed. That this depends on the three byte strings alone is
/// claimed; when it holds is not.
#[verifier::external_body]
fn p256_verify(key: &[u8], message: &[u8], signature: &[u8]) -> (accepted: bool)
    ensures
        accepted == p256_accepts(key@, message@, signature@),
{
    match (VerifyingKey::from_sec1_bytes(key), Signature::from_der(signature)) {
        (Ok(key), Ok(signature)) => key.verify(message, &signature).is_ok(),
        _ => false,
    }
}

/// The bytes that the server signs: the randoms of both stations, then the curve
/// and the public key as they stand in the message.
pub open spec fn signed_bytes(
    client_random: Seq<u8>,
    server_random: Seq<u8>,
    curve_type: u8,
    named_curve: u16,
    public_key: Seq<u8>,
) -> Seq<u8> {
    client_random + server_random + seq![curve_type] + be16(named_curve as int) + seq![
        public_key.len() as u8,
    ] + public_key
}

impl ServerKeyExchange {
    /// The bytes that the server signs. Fails if the public key is longer than 255
    /// bytes, which its length field cannot say.
    pub fn signed_params(&self, client_random: &[u8], server_random: &[u8]) -> (params: Result<
        Vec<u8>,
        DtlsError,
    >)
        ensures
            match params {
                Ok(params) => {
                    &&& self.public_key@.len() <= 255
                    &&& params@ == signed_bytes(
                        client_random@,
                        server_random@,
                        self.curve_type,
                        self.named_curve,
                        self.public_key@,
                    )
                },
                Err(error) => {
                    &&& self.public_key@.len() > 255
                    &&& error == DtlsError::PublicKeyTooLong
                },
            },
    {
        if self.public_key.len() > 255 {
            return Err(DtlsError::PublicKeyTooLong);
        }
        let mut params: Vec<u8> = Vec::new();
        params.extend_from_slice(client_random);
        params.extend_from_slice(server_random);
        params.push(self.curve_type);
        params.push((self.named_curve / 0x100) as u8);
        params.push((self.named_curve % 0x100) as u8);
        params.push(self.public_key.len() as u8);
        params.extend_from_slice(self.public_key.as_slice());
        assert(params@ =~= signed_bytes(
            client_random@,
            server_random@,
            self.curve_type,
            self.named_curve,
            self.public_key@,
        ));
        Ok(params)
    }
}

/// The code of SHA-256 in front of a signature.
pub const HASH_SHA256: u8 = 4;

/// The code of ECDSA in front of a signature.
pub const SIGNATURE_ECDSA: u8 = 3;

impl ServerKeyExchange {
    /// Whether key and signature fit their length fields.
    pub open spec fn fits(self) -> bool {
        &&& self.public_key@.len() < 0x100
        &&& self.signature@.len() < 0x10000
    }

    /// The message on the wire: the parameters, then the signature behind its
    /// algorithm.
    pub open spec fn encoded(self) -> Seq<u8> {
        seq![self.curve_type] + be16(self.named_curve as int) + vector8(self.public_key@) + seq![
            HASH_SHA256,
            SIGNATURE_ECDSA,
        ] + vector16(self.signature@)
    }

    /// Appends the message to `buf`.
    pub fn encode(&self, buf: &mut BytesMut)
        requires
            self.fits(),
            bytes_mut_contents(*old(buf)).len() + self.encoded().len() <= isize::MAX / 2,
        ensures
            bytes_mut_contents(*final(buf)) == bytes_mut_contents(*old(buf)) + self.encoded(),
    {
        put8(buf, self.curve_type);
        put16(buf, self.named_curve);
        put_vector8(buf, self.public_key.as_slice());
        put8(buf, HASH_SHA256);
        put8(buf, SIGNATURE_ECDSA);
        put_vector16(buf, self.signature.as_slice());
        assert(bytes_mut_contents(*buf) =~= bytes_mut_contents(*old(buf)) + self.encoded());
    }
}

/// The verdict on a key exchange, given whether the signature was accepted.
pub open spec fn verdict(public_key_len: nat, accepted: bool) -> Result<(), DtlsError> {
    if public_key_len > 255 {
        Err(DtlsError::PublicKeyTooLong)
    } else if accepted {
        Ok(())
    } else {
        Err(DtlsError::SignatureVerificationFailed)
    }
}

/// The verdict on a key exchange signed with the key `signer_key`, in SEC1 form.
pub open spec fn verdict_with_key(
    signer_key: Seq<u8>,
    client_random: Seq<u8>,
    server_random: Seq<u8>,
    key_exchange: ServerKeyExchange,
) -> Result<(), DtlsError> {
    verdict(
        key_exchange.public_key@.len(),
        p256_accepts(
            signer_key,
            signed_bytes(
                client_random,
                server_random,
                key_exchange.curve_type,
                key_exchange.named_curve,
                key_exchange.public_key@,
            ),
            key_exchange.signature@,
        ),
    )
}

/// Checks that a key exchange was signed for this handshake by the peer with this
/// certificate, in DER.
pub fn verify_server_key_exchange_signature(
    certificate: &[u8],
    client_random: &[u8],
    server_random: &[u8],
    key_exchange: &ServerKeyExchange,
) -> (result: Result<(), DtlsError>)
    ensures
        result == match certificate_key(certificate@) {
            Some(key) => verdict_with_key(key, client_random@, server_random@, *key_exchange),
            None => if key_exchange.public_key@.len() > 255 {
                Err(DtlsError::PublicKeyTooLong)
            } else {
                Err(DtlsError::MalformedCertificate)
            },
        },
{
    match certificate_public_key(certificate) {
        Some(key) => verify_signature_with_key(key, client_random, server_random, key_exchange),
        None => if key_exchange.public_key.len() > 255 {
            Err(DtlsError::PublicKeyTooLong)
        } else {
            Err(DtlsError::MalformedCertificate)
        },
    }
}

/// Checks that a key exchange was signed for this handshake by the peer whose
/// public key, in SEC1 form, is `signer_key`.
pub fn verify_signature_with_key(
    signer_key: &[u8],
    client_random: &[u8],
    server_random: &[u8],
    key_exchange: &ServerKeyExchange,
) -> (result: Result<(), DtlsError>)
    ensures
        result == verdict_with_key(
            signer_key@,
            client_random@,
            server_random@,
            *key_exchange,
        ),
{
    let params: Vec<u8> = match key_exchange.signed_params(client_random, server_random) {
        Ok(params) => params,
        Err(error) => return Err(error),
    };
    let accepted: bool = p256_verify(
        signer_key,
        params.as_slice(),
        key_exchange.signature.as_slice(),
    );
    signature_verdict(accepted)
}

/// The result of the signature check for a public key that is not too long.
pub fn signature_verdict(accepted: bool) -> (result: Result<(), DtlsError>)
    ensures
        result == verdict(0, accepted),
{
    if accepted {
        Ok(())
    } else {
        Err(DtlsError::SignatureVerificationFailed)
    }
}

/// What is signed pins down the handshake and the key: two key exchanges with
/// randoms of 32 bytes and keys that are not too long sign the same bytes only if
/// they agree in everything that is signed.
pub proof fn signed_bytes_are_injective(
    client_random: Seq<u8>,
    server_random: Seq<u8>,
    curve_type: u8,
    named_curve: u16,
    public_key: Seq<u8>,
    other_client_random: Seq<u8>,
    other_server_random: Seq<u8>,
    other_curve_type: u8,
    other_named_curve: u16,
    other_public_key: Seq<u8>,
)
    requires
        client_random.len() == 32,
        server_random.len() == 32,
        other_client_random.len() == 32,
        other_server_random.len() == 32,
        signed_bytes(client_random, server_random, curve_type, named_curve, public_key)
            == signed_bytes(
            other_client_random,
            other_server_random,
            other_curve_type,
            other_named_curve,
            other_public_key,
        ),
    ensures
        client_random == other_client_random,
        server_random == other_server_random,
        curve_type == other_curve_type,
        named_curve == other_named_curve,
        public_key == other_public_key,
{
    let one = signed_bytes(client_random, server_random, curve_type, named_curve, public_key);
    assert(one.subrange(0, 32) =~= client_random);
    assert(one.subrange(0, 32) =~= other_client_random);
    assert(one.subrange(32, 64) =~= server_random);
    assert(one.subrange(32, 64) =~= other_server_random);
    assert(one[64] == curve_type && one[64] == other_curve_type);
    assert(one[65] == be16(named_curve as int)[0] && one[65] == be16(other_named_curve as int)[0]);
    assert(one[66] == be16(named_curve as int)[1] && one[66] == be16(other_named_curve as int)[1]);
    assert(one.skip(68) =~= public_key);
    assert(one.skip(68) =~= other_public_key);
}

/// A key exchange on the wire is its curve type and curve, the key behind a length of
/// one byte, the codes of SHA-256 and ECDSA, and the signature in full behind a length
/// of two bytes, up to the end.
pub proof fn key_exchange_layout(key_exchange: ServerKeyExchange)
    requires
        key_exchange.public_key@.len() <= 255,
        key_exchange.signature@.len() <= 0xFFFF,
    ensures
        key_exchange.fits(),
        ({
            let wire = key_exchange.encoded();
            let at = 4 + key_exchange.public_key@.len() as int;
            &&& wire.len() == at + 4 + key_exchange.signature@.len()
            &&& wire[0] == key_exchange.curve_type
            &&& wire[1] * 256 + wire[2] == key_exchange.named_curve
            &&& wire[3] == key_exchange.public_key@.len()
            &&& wire.subrange(4, at) == key_exchange.public_key@
            &&& wire[at] == 4
            &&& wire[at + 1] == 3
            &&& wire[at + 2] * 256 + wire[at + 3] == key_exchange.signature@.len()
            &&& wire.skip(at + 4) == key_exchange.signature@
        }),
{
    let wire = key_exchange.encoded();
    let at = 4 + key_exchange.public_key@.len() as int;
    assert(wire.subrange(3, at) =~= vector8(key_exchange.public_key@));
    assert(wire.subrange(4, at) =~= key_exchange.public_key@);
    assert(wire.skip(at + 2) =~= vector16(key_exchange.signature@));
    assert(wire[at + 2] == wire.skip(at + 2)[0] && wire[at + 3] == wire.skip(at + 2)[1]);
    assert(wire.skip(at + 4) =~= key_exchange.signature@);
}

/// Two key exchanges with the same bytes on the wire agree in every part.
pub proof fn key_exchange_is_unambiguous(one: ServerKeyExchange, other: ServerKeyExchange)
    requires
        one.public_key@.len() <= 255,
        one.signature@.len() <= 0xFFFF,
        other.public_key@.len() <= 255,
        other.signature@.len() <= 0xFFFF,
        one.encoded() == other.encoded(),
    ensures
        one.curve_type == other.curve_type,
        one.named_curve == other.named_curve,
        one.public_key@ == other.public_key@,
        one.signature@ == other.signature@,
{
    key_exchange_layout(one);
    key_exchange_layout(other);
}

/// What is signed is the client's random, the server's random, the curve type, the
/// curve in two bytes, the length of the key in one, and the key.
pub proof fn signed_bytes_layout(
    client_random: Seq<u8>,
    server_random: Seq<u8>,
    curve_type: u8,
    named_curve: u16,
    public_key: Seq<u8>,
)
    requires
        public_key.len() <= 255,
    ensures
        ({
            let signed = signed_bytes(
                client_random,
                server_random,
                curve_type,
                named_curve,
                public_key,
            );
            let c = client_random.len() as int;
            let s = c + server_random.len();
            &&& signed.len() == s + 4 + public_key.len()
            &&& signed.take(c) == client_random
            &&& signed.subrange(c, s) == server_random
            &&& signed[s] == curve_type
            &&& signed[s + 1] * 256 + signed[s + 2] == named_curve
            &&& signed[s + 3] == public_key.len()
            &&& signed.skip(s + 4) == public_key
        }),
{
    let signed = signed_bytes(client_random, server_random, curve_type, named_curve, public_key);
    let c = client_random.len() as int;
    let s = c + server_random.len();
    assert(signed.take(c) =~= client_random);
    assert(signed.subrange(c, s) =~= server_random);
    assert(signed.skip(s + 4) =~= public_key);
}

/// A key exchange is accepted exactly if its key has at most 255 bytes and P-256
/// accepts the signature of the client's random, the server's random, and the curve
/// and the key as they stand in the message. A longer key is refused as too long, and
/// any other failure is one of the signature.
pub proof fn accepted_iff_signed(
    signer_key: Seq<u8>,
    client_random: Seq<u8>,
    server_random: Seq<u8>,
    key_exchange: ServerKeyExchange,
)
    ensures
        ({
            let key = key_exchange.public_key@;
            let curve = key_exchange.named_curve;
            let signed = client_random + server_random + seq![
                key_exchange.curve_type,
                (curve / 256) as u8,
                (curve % 256) as u8,
                key.len() as u8,
            ] + key;
            let accepted = p256_accepts(signer_key, signed, key_exchange.signature@);
            let result = verdict_with_key(signer_key, client_random, server_random, key_exchange);
            &&& result is Ok <==> key.len() <= 255 && accepted
            &&& result == Err::<(), _>(DtlsError::PublicKeyTooLong) <==> key.len() > 255
            &&& result == Err::<(), _>(DtlsError::SignatureVerificationFailed) <==> key.len() <= 255
                && !accepted
        }),
{
    let key = key_exchange.public_key@;
    let curve = key_exchange.named_curve;
    let signed = client_random + server_random + seq![
        key_exchange.curve_type,
        (curve / 256) as u8,
        (curve % 256) as u8,
        key.len() as u8,
    ] + key;
    assert(signed =~= signed_bytes(
        client_random,
        server_random,
        key_exchange.curve_type,
        curve,
        key,
    ));
}

/// With a key that is not too long, the verdict is that on the signature.
pub proof fn verdict_follows_signature(accepted: bool)
    ensures
        verdict(0, accepted) is Ok <==> accepted,
        verdict(0, accepted) is Err <==> verdict(0, accepted) == Err::<(), _>(
            DtlsError::SignatureVerificationFailed,
        ),
{
}

} // verus!
