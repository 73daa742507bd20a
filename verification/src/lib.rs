//! Decoders for the graphics codecs and the share headers of the Remote Desktop Protocol.

#![allow(unused_imports)]

pub mod bytes;
pub mod clear_codec;
pub mod headers;
pub mod rfx_progressive;
pub mod text;
