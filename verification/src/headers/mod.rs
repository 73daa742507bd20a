//! The headers of the protocol's PDUs.
//!
//! A share control header says what kind of PDU follows. Most of what follows in a session is
//! data, which has a header of its own. PDUs that have a decoder of their own are handed over to
//! it: decoding stops in front of them, and goes on once their bytes have been taken.

pub mod codes;
pub mod cursor;
pub mod error;
pub mod laws;
pub mod names;
pub mod redirection;
pub mod security;
pub mod share_control;
pub mod share_data;
pub mod wire;

pub use crate::headers::codes::{
    BasicSecurityHeaderFlags, CompressionFlags, CompressionType, RedirectionFlags,
    ShareControlPduType, ShareDataPduType, StreamPriority,
};
pub use crate::headers::error::{DecodeResult, EncodeResult, PduError};
pub use crate::headers::redirection::RdpServerRedirectionPacket;
pub use crate::headers::security::{BasicSecurityHeader, BASIC_SECURITY_HEADER_SIZE};
pub use crate::headers::share_control::{
    PendingControlPdu, PendingShareControl, ServerDeactivateAll, ShareControlHeader,
    ShareControlPdu, PROTOCOL_VERSION,
};
pub use crate::headers::share_data::{
    Decoded, InnerPdu, PendingShareData, ShareDataHeader, ShareDataPdu, ShareDataPduKind,
    SHARE_DATA_HEADER_COMPRESSION_MASK,
};
