//! What a parsed stream holds.

use crate::rfx_progressive::layout;
use crate::rfx_progressive::layout::TILE_PIXELS;
use vstd::prelude::*;

verus! {

/// The quantization of a component, band by band. On the wire each value has four bits.
#[derive(Clone, Copy, Debug, PartialEq, Eq, Structural)]
pub struct ComponentCodecQuant {
    pub ll3: u8,
    pub hl3: u8,
    pub lh3: u8,
    pub hh3: u8,
    pub hl2: u8,
    pub lh2: u8,
    pub hh2: u8,
    pub hl1: u8,
    pub lh1: u8,
    pub hh1: u8,
}

impl ComponentCodecQuant {
    /// Every value has four bits.
    pub open spec fn wf(self) -> bool {
        &&& self.ll3 <= 15
        &&& self.hl3 <= 15
        &&& self.lh3 <= 15
        &&& self.hh3 <= 15
        &&& self.hl2 <= 15
        &&& self.lh2 <= 15
        &&& self.hh2 <= 15
        &&& self.hl1 <= 15
        &&& self.lh1 <= 15
        &&& self.hh1 <= 15
    }

    /// The values in the order of the bands.
    pub open spec fn bands(self) -> Seq<i32> {
        seq![
            self.hl1 as i32,
            self.lh1 as i32,
            self.hh1 as i32,
            self.hl2 as i32,
            self.lh2 as i32,
            self.hh2 as i32,
            self.hl3 as i32,
            self.lh3 as i32,
            self.hh3 as i32,
            self.ll3 as i32,
        ]
    }
}

/// The progressive quantization of the three components.
#[derive(Clone, Copy, Debug, PartialEq, Eq, Structural)]
pub struct ProgressiveCodecQuant {
    pub y_quant: ComponentCodecQuant,
    pub cb_quant: ComponentCodecQuant,
    pub cr_quant: ComponentCodecQuant,
}

impl ProgressiveCodecQuant {
    /// Every value has four bits.
    pub open spec fn wf(self) -> bool {
        self.y_quant.wf() && self.cb_quant.wf() && self.cr_quant.wf()
    }
}

/// A rectangle of a region.
#[derive(Clone, Copy, Debug, PartialEq, Eq, Structural)]
pub struct RfxRectangle {
    pub x: u16,
    pub y: u16,
    pub width: u16,
    pub height: u16,
}

/// What the entropy decoder made of a component's data: its coefficients, and the differences of
/// their last band added up.
#[derive(Debug)]
pub struct FirstPassData {
    pub coefficients: Vec<i16>,
    pub ll3: Vec<i16>,
}

impl FirstPassData {
    /// There is a coefficient for every place.
    pub open spec fn wf(&self, extrapolate: bool) -> bool {
        &&& self.coefficients@.len() == TILE_PIXELS
        &&& self.ll3@.len() == TILE_PIXELS - layout::band_start(extrapolate, 9)
    }
}

/// Entropy decoding can fail.
pub open spec fn data_wf(data: Result<FirstPassData, String>, extrapolate: bool) -> bool {
    data matches Ok(d) ==> d.wf(extrapolate)
}

/// A tile that comes in one pass.
#[derive(Debug)]
pub struct TileSimple {
    pub quant_idx_y: u8,
    pub quant_idx_cb: u8,
    pub quant_idx_cr: u8,
    pub x_idx: u16,
    pub y_idx: u16,
    pub flags: u8,
    pub y_data: Result<FirstPassData, String>,
    pub cb_data: Result<FirstPassData, String>,
    pub cr_data: Result<FirstPassData, String>,
}

/// The first pass of a tile.
#[derive(Debug)]
pub struct TileFirst {
    pub quant_idx_y: u8,
    pub quant_idx_cb: u8,
    pub quant_idx_cr: u8,
    pub x_idx: u16,
    pub y_idx: u16,
    pub flags: u8,
    pub quality: u8,
    pub y_data: Result<FirstPassData, String>,
    pub cb_data: Result<FirstPassData, String>,
    pub cr_data: Result<FirstPassData, String>,
}

/// A later pass of a tile.
#[derive(Debug)]
pub struct TileUpgrade {
    pub quant_idx_y: u8,
    pub quant_idx_cb: u8,
    pub quant_idx_cr: u8,
    pub x_idx: u16,
    pub y_idx: u16,
    pub quality: u8,
    pub y_srl_data: Vec<u8>,
    pub y_raw_data: Vec<u8>,
    pub cb_srl_data: Vec<u8>,
    pub cb_raw_data: Vec<u8>,
    pub cr_srl_data: Vec<u8>,
    pub cr_raw_data: Vec<u8>,
}

/// A pass of a tile.
#[derive(Debug)]
pub enum ProgressiveTile {
    Simple(TileSimple),
    First(TileFirst),
    Upgrade(TileUpgrade),
}

impl ProgressiveTile {
    /// The tile's data is of the right size.
    pub open spec fn wf(&self, extrapolate: bool) -> bool {
        match *self {
            ProgressiveTile::Simple(t) => {
                &&& data_wf(t.y_data, extrapolate)
                &&& data_wf(t.cb_data, extrapolate)
                &&& data_wf(t.cr_data, extrapolate)
            },
            ProgressiveTile::First(t) => {
                &&& data_wf(t.y_data, extrapolate)
                &&& data_wf(t.cb_data, extrapolate)
                &&& data_wf(t.cr_data, extrapolate)
            },
            ProgressiveTile::Upgrade(t) => true,
        }
    }

    /// The tile's column in the grid.
    pub open spec fn column(&self) -> u16 {
        match *self {
            ProgressiveTile::Simple(t) => t.x_idx,
            ProgressiveTile::First(t) => t.x_idx,
            ProgressiveTile::Upgrade(t) => t.x_idx,
        }
    }

    /// The tile's row in the grid.
    pub open spec fn row(&self) -> u16 {
        match *self {
            ProgressiveTile::Simple(t) => t.y_idx,
            ProgressiveTile::First(t) => t.y_idx,
            ProgressiveTile::Upgrade(t) => t.y_idx,
        }
    }

    /// Returns the tile's column in the grid.
    pub fn x_idx(&self) -> (r: u16)
        ensures
            r == self.column(),
    {
        match self {
            ProgressiveTile::Simple(t) => t.x_idx,
            ProgressiveTile::First(t) => t.x_idx,
            ProgressiveTile::Upgrade(t) => t.x_idx,
        }
    }

    /// Returns the tile's row in the grid.
    pub fn y_idx(&self) -> (r: u16)
        ensures
            r == self.row(),
    {
        match self {
            ProgressiveTile::Simple(t) => t.y_idx,
            ProgressiveTile::First(t) => t.y_idx,
            ProgressiveTile::Upgrade(t) => t.y_idx,
        }
    }
}

/// Tiles, with the tables that they refer to and the rectangles that they are clipped to.
#[derive(Debug)]
pub struct ProgressiveRegion {
    pub rects: Vec<RfxRectangle>,
    pub quant_vals: Vec<ComponentCodecQuant>,
    pub quant_prog_vals: Vec<ProgressiveCodecQuant>,
    /// The tiles use the reduced-extrapolate transform.
    pub reduce_extrapolate: bool,
    pub tiles: Vec<ProgressiveTile>,
}

impl ProgressiveRegion {
    /// The tables and the tiles' data are in order.
    pub open spec fn wf(&self) -> bool {
        &&& forall|i: int|
            0 <= i < self.quant_vals@.len() ==> (#[trigger] self.quant_vals@[i]).wf()
        &&& forall|i: int|
            0 <= i < self.quant_prog_vals@.len() ==> (#[trigger] self.quant_prog_vals@[i]).wf()
        &&& forall|i: int|
            0 <= i < self.tiles@.len() ==> (#[trigger] self.tiles@[i]).wf(self.reduce_extrapolate)
    }

    /// Returns whether the tiles use the reduced-extrapolate transform.
    pub fn uses_reduce_extrapolate(&self) -> (r: bool)
        ensures
            r == self.reduce_extrapolate,
    {
        self.reduce_extrapolate
    }
}

/// A block of a stream. Only regions carry pixels.
#[derive(Debug)]
pub enum ProgressiveBlock {
    Sync,
    FrameBegin,
    FrameEnd,
    Context,
    Region(ProgressiveRegion),
}

/// Returns the values of a quantization in the order of the bands.
pub fn bands(q: &ComponentCodecQuant) -> (r: [i32; 10])
    ensures
        r@ == q.bands(),
{
    let r: [i32; 10] = [
        q.hl1 as i32,
        q.lh1 as i32,
        q.hh1 as i32,
        q.hl2 as i32,
        q.lh2 as i32,
        q.hh2 as i32,
        q.hl3 as i32,
        q.lh3 as i32,
        q.hh3 as i32,
        q.ll3 as i32,
    ];
    assert(r@ =~= q.bands());
    r
}

} // verus!
