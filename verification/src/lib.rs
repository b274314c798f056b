//! Fax over IP and DTLS building blocks for a real-time communication stack.
//!
//! * [`t38`] holds the T.30 fax session state machine, the T.38 packet types and
//!   the decisions of a fax endpoint's receive loop.
//! * [`transports`] holds the DTLS wire formats, handshake reassembly, cipher
//!   suite negotiation and the decisions taken while a handshake is under way.

pub mod errors;
pub mod t38;
pub mod transports;
