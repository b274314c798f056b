//! Errors of the DTLS layer.

use vstd::prelude::*;

verus! {

/// Why a DTLS message was refused or a handshake could not go on.
#[derive(Debug, Clone, Copy, PartialEq, Eq, Structural)]
pub enum DtlsError {
    /// A handshake message is announced as longer than is accepted.
    MessageTooLong,
    /// A fragment reaches past the end of its handshake message.
    FragmentOverrun,
    /// Two fragments of one handshake message announce different lengths.
    TotalLengthChanged,
    /// No handshake message type has this code.
    UnknownHandshakeType(u8),
    /// No record content type has this code.
    UnknownContentType(u8),
    /// The body of a handshake message cannot be read.
    MalformedMessage,
    /// The operating system provided no random bytes.
    RandomUnavailable,
    /// A public key does not fit its length field.
    PublicKeyTooLong,
    /// The key exchange was not signed by the peer's key.
    SignatureVerificationFailed,
    /// The client offers no cipher suite that is supported.
    NoSharedCipherSuite,
    /// The server chose a cipher suite that is not supported.
    UnsupportedCipherSuite(u16),
    /// A record of application data is longer than a datagram may be.
    RecordTooLong,
    /// The peer sent an empty certificate chain.
    NoCertificate,
    /// The peer's certificate is not the one that was announced.
    FingerprintMismatch,
    /// Not all records of a payload arrived in time.
    CollectTimedOut,
    /// No record arrived for too long.
    RecordTimedOut,
    /// The channel that hands out records was closed.
    ChannelClosed,
    /// A certificate cannot be read, or is not for a P-256 key.
    MalformedCertificate,
    /// A transport did not change its state in time.
    WaitElapsed,
    /// A transport is gone and reports no state any more.
    StateChannelClosed,
}

impl DtlsError {
    /// The message that describes the error.
    pub open spec fn text(self) -> Seq<char> {
        match self {
            DtlsError::MessageTooLong => "handshake message exceeds the length limit"@,
            DtlsError::FragmentOverrun => "handshake fragment exceeds its message"@,
            DtlsError::TotalLengthChanged => "peer changed total_length of a handshake message"@,
            DtlsError::UnknownHandshakeType(_) => "unknown handshake type"@,
            DtlsError::UnknownContentType(_) => "unknown content type"@,
            DtlsError::MalformedMessage => "malformed handshake message"@,
            DtlsError::RandomUnavailable => "random generator unavailable"@,
            DtlsError::PublicKeyTooLong => "server public key is too long"@,
            DtlsError::SignatureVerificationFailed => "ServerKeyExchange signature verification failed"@,
            DtlsError::NoSharedCipherSuite => "no cipher suite shared with the client"@,
            DtlsError::UnsupportedCipherSuite(_) => "server chose an unsupported cipher suite"@,
            DtlsError::RecordTooLong => "application data record exceeds the length limit"@,
            DtlsError::NoCertificate => "peer sent no certificate"@,
            DtlsError::FingerprintMismatch => "certificate fingerprint mismatch"@,
            DtlsError::CollectTimedOut => "timed out reassembling fragmented payload"@,
            DtlsError::RecordTimedOut => "record recv timeout"@,
            DtlsError::ChannelClosed => "DTLS channel closed"@,
            DtlsError::MalformedCertificate => "malformed certificate"@,
            DtlsError::WaitElapsed => "deadline has elapsed"@,
            DtlsError::StateChannelClosed => "channel closed"@,
        }
    }

    /// The message that describes the error.
    pub fn to_string(&self) -> (text: String)
        ensures
            text@ == self.text(),
    {
        let text: &str = match self {
            DtlsError::MessageTooLong => "handshake message exceeds the length limit",
            DtlsError::FragmentOverrun => "handshake fragment exceeds its message",
            DtlsError::TotalLengthChanged => "peer changed total_length of a handshake message",
            DtlsError::UnknownHandshakeType(_) => "unknown handshake type",
            DtlsError::UnknownContentType(_) => "unknown content type",
            DtlsError::MalformedMessage => "malformed handshake message",
            DtlsError::RandomUnavailable => "random generator unavailable",
            DtlsError::PublicKeyTooLong => "server public key is too long",
            DtlsError::SignatureVerificationFailed => "ServerKeyExchange signature verification failed",
            DtlsError::NoSharedCipherSuite => "no cipher suite shared with the client",
            DtlsError::UnsupportedCipherSuite(_) => "server chose an unsupported cipher suite",
            DtlsError::RecordTooLong => "application data record exceeds the length limit",
            DtlsError::NoCertificate => "peer sent no certificate",
            DtlsError::FingerprintMismatch => "certificate fingerprint mismatch",
            DtlsError::CollectTimedOut => "timed out reassembling fragmented payload",
            DtlsError::RecordTimedOut => "record recv timeout",
            DtlsError::ChannelClosed => "DTLS channel closed",
            DtlsError::MalformedCertificate => "malformed certificate",
            DtlsError::WaitElapsed => "deadline has elapsed",
            DtlsError::StateChannelClosed => "channel closed",
        };
        text.to_owned()
    }
}

/// Errors that callers tell by their text have that text.
pub proof fn texts_that_callers_read(code: u8, suite: u16)
    ensures
        DtlsError::PublicKeyTooLong.text() == "server public key is too long"@,
        DtlsError::SignatureVerificationFailed.text()
            == "ServerKeyExchange signature verification failed"@,
        DtlsError::TotalLengthChanged.text() == "peer changed total_length of a handshake message"@,
        DtlsError::CollectTimedOut.text() == "timed out reassembling fragmented payload"@,
        DtlsError::RecordTimedOut.text() == "record recv timeout"@,
        DtlsError::ChannelClosed.text() == "DTLS channel closed"@,
        DtlsError::WaitElapsed.text() == "deadline has elapsed"@,
        DtlsError::StateChannelClosed.text() == "channel closed"@,
        DtlsError::UnknownHandshakeType(code).text() == "unknown handshake type"@,
        DtlsError::UnknownContentType(code).text() == "unknown content type"@,
        DtlsError::UnsupportedCipherSuite(suite).text()
            == "server chose an unsupported cipher suite"@,
        DtlsError::NoSharedCipherSuite.text() == "no cipher suite shared with the client"@,
{
}

} // verus!
