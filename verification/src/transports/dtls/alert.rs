//! Alerts (RFC 5246, section 7.2).

use bytes::Bytes;

use vstd::prelude::*;

use crate::transports::dtls::error::DtlsError;
use crate::transports::dtls::record::{ContentType, DtlsRecord, DtlsRecordView, ProtocolVersion};

verus! {

/// The level of an alert that ends the connection.
pub const ALERT_LEVEL_FATAL: u8 = 2;

/// The description of an alert that no parameters could be agreed on.
pub const ALERT_HANDSHAKE_FAILURE: u8 = 40;

/// The record of a fatal handshake_failure alert, in plaintext.
pub open spec fn handshake_failure(sequence_number: u64) -> DtlsRecordView {
    DtlsRecordView {
        content_type: ContentType::Alert,
        version: ProtocolVersion { major: 254, minor: 253 },
        epoch: 0,
        sequence_number,
        payload: seq![ALERT_LEVEL_FATAL, ALERT_HANDSHAKE_FAILURE],
    }
}

/// The alert that tells the peer why the handshake failed. There is one exactly
/// if no cipher suite is shared.
pub fn alert_for(error: DtlsError, sequence_number: u64) -> (alert: Option<DtlsRecord>)
    ensures
        match alert {
            Some(record) => {
                &&& error == DtlsError::NoSharedCipherSuite
                &&& record@ == handshake_failure(sequence_number)
            },
            None => error != DtlsError::NoSharedCipherSuite,
        },
{
    if error != DtlsError::NoSharedCipherSuite {
        return None;
    }
    let payload: [u8; 2] = [ALERT_LEVEL_FATAL, ALERT_HANDSHAKE_FAILURE];
    assert(payload@ =~= seq![ALERT_LEVEL_FATAL, ALERT_HANDSHAKE_FAILURE]);
    Some(
        DtlsRecord {
            content_type: ContentType::Alert,
            version: ProtocolVersion::dtls_1_2(),
            epoch: 0,
            sequence_number,
            payload: Bytes::copy_from_slice(payload.as_slice()),
        },
    )
}

/// On the wire, a handshake_failure alert starts with content type 21 and ends
/// with level 2 and description 40.
pub proof fn handshake_failure_on_the_wire(sequence_number: u64)
    ensures
        ({
            let wire = handshake_failure(sequence_number).encoded();
            &&& wire.len() == 15
            &&& wire[0] == 21
            &&& wire[13] == 2
            &&& wire[14] == 40
        }),
{
}

} // verus!
