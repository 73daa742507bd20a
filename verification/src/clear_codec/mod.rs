//! ClearCodec bitmap decoder.
//!
//! A composition is up to three layers, painted in order: the residual (a run-length encoded
//! background), the bands (columns of pixels, called vertical bars, with two caches), and the
//! subcodecs (rectangles of raw pixels or of palette runs). On top sits a cache of composed
//! rectangles, the glyphs, under indices that the server chooses.

pub mod bands;
pub mod columns;
pub mod decoder;
pub mod failures;
pub mod laws;
pub mod opacity;
pub mod paint;
pub mod reader;
pub mod rectangles;
pub mod residual;
pub mod rings;
pub mod runs;
pub mod streams;
pub mod subcodec;

pub use crate::clear_codec::decoder::ClearDecoder;
pub use crate::clear_codec::reader::{ClearDecodeError, ClearResult};
