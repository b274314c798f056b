//! Transports.

pub mod dtls;
