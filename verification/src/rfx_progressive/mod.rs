//! The progressive mode of RemoteFX.
//!
//! A region of a surface comes as tiles of 64 by 64 pixels. A first pass shows a tile in coarse
//! form, and upgrades sharpen it: they add bits to its coefficients, which are remembered from one
//! pass to the next. The decoder works on streams that have been parsed, and on first passes that
//! have been entropy decoded. It gives back, for every tile that a stream shows, the coefficients
//! to transform, and paints the pixels that came of them.

pub mod bits;
pub mod blit;
pub mod coding;
pub mod component;
pub mod decoder;
pub mod failures;
pub mod laws;
pub mod layout;
pub mod order;
pub mod painting;
pub mod passes;
pub mod stream;
pub mod tile;
pub mod turns;
pub mod update;
pub mod upgrade;
pub mod values;

pub use crate::rfx_progressive::blit::InclusiveRectangle;
pub use crate::rfx_progressive::decoder::{DecodedStream, DecodedTile, ProgressiveDecoder};
pub use crate::rfx_progressive::stream::{
    ComponentCodecQuant, FirstPassData, ProgressiveBlock, ProgressiveCodecQuant,
    ProgressiveRegion, ProgressiveTile, RfxRectangle, TileFirst, TileSimple, TileUpgrade,
};
pub use crate::rfx_progressive::tile::TilePlanes;
pub use crate::rfx_progressive::update::{ProgressiveError, ProgressiveUpdate};
