//! DTLS 1.2: records, handshake messages, their reassembly and their order, cipher
//! suite negotiation, certificates, the signed key exchange, and application data.

pub mod alert;
pub mod app_data;
pub mod buffer;
pub mod certificate;
pub mod cipher_suite;
pub mod client_hello;
pub mod context;
pub mod context_laws;
pub mod context_part_laws;
pub mod error;
pub mod fingerprint;
pub mod flight;
pub mod handshake;
pub mod hello;
pub mod key_exchange;
pub mod messages;
pub mod reassembly;
pub mod reassembly_laws;
pub mod record;
pub mod server_hello;
pub mod state;
pub mod vector;
pub mod wire_laws;
pub mod x509;

pub use alert::alert_for;
pub use app_data::{
    fragment_application_data, CollectStep, RecordCollector, RecordEvent,
    MAX_APP_DATA_RECORD_SIZE,
};
pub use certificate::CertificateMessage;
pub use cipher_suite::{negotiate_cipher_suite, SUPPORTED_CIPHER_SUITE};
pub use client_hello::ClientHello;
pub use context::{server_handle_client_hello, HandshakeContext};
pub use error::DtlsError;
pub use fingerprint::fingerprint;
pub use flight::server_flight;
pub use handshake::{HandshakeMessage, HandshakeType};
pub use hello::Random;
pub use key_exchange::{verify_server_key_exchange_signature, ServerKeyExchange};
pub use messages::{fragmented_message, server_hello_message, Fragments};
pub use reassembly::{HandshakeReassembly, MAX_HANDSHAKE_MESSAGE_LEN};
pub use record::{ContentType, DtlsRecord, ProtocolVersion};
pub use server_hello::ServerHello;
pub use state::{
    state_after_wait, wait_connected, wait_for_terminal_state, DtlsState, TransportEvent,
    WaitEvent, WaitStep,
};
