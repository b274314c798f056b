//! T.38 fax relay.

pub mod endpoint;
pub mod ifp;
pub mod t30;
pub mod t30_laws;
pub mod t30_part_laws;

pub use endpoint::{FaxAction, FaxInput};
pub use ifp::{DataField, DataFieldType, IfpPacket, T30Indicator};
pub use t30::{
    HdlcFrameType, T30Event, T30FaxConfig, T30Phase, T30Resolution, T30Session,
};
