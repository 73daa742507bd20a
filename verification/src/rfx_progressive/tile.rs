//! Tiles of a surface and their passes.

use crate::rfx_progressive::component;
use crate::rfx_progressive::component::{Component, ComponentState};
use crate::rfx_progressive::stream;
use crate::rfx_progressive::stream::{
    bands, FirstPassData, ProgressiveCodecQuant, ProgressiveRegion, TileUpgrade,
};
use crate::rfx_progressive::upgrade::UpgradeStreams;
use crate::text;
use crate::text::decimal_text;
use vstd::prelude::*;
use vstd::string::*;

verus! {

/// The coefficients of a tile, to be transformed and shown.
#[verifier::ext_equal]
pub struct Planes {
    pub y: Seq<i16>,
    pub cb: Seq<i16>,
    pub cr: Seq<i16>,
}

/// The same for the three components.
pub struct Three<T> {
    pub y: T,
    pub cb: T,
    pub cr: T,
}

/// What is remembered of a tile.
#[verifier::ext_equal]
pub struct Tile {
    pub y: Component,
    pub cb: Component,
    pub cr: Component,
    /// How many passes the tile has had.
    pub pass: u16,
}

impl Tile {
    /// A tile that nothing has been decoded of.
    pub open spec fn blank() -> Tile {
        Tile { y: Component::blank(), cb: Component::blank(), cr: Component::blank(), pass: 0 }
    }

    /// The components are in order.
    pub open spec fn wf(self) -> bool {
        self.y.wf() && self.cb.wf() && self.cr.wf()
    }
}

/// Full quality: nothing is held back for later passes.
pub open spec fn prog_quant_full() -> Seq<i32> {
    Seq::new(10, |b: int| 0i32)
}

/// The quantization at an index of the region's table.
pub open spec fn quant_entry(region: ProgressiveRegion, idx: u8) -> Result<Seq<i32>, Seq<char>> {
    if idx < region.quant_vals@.len() {
        Ok(region.quant_vals@[idx as int].bands())
    } else {
        Err("quant index "@ + text::decimal(idx as nat) + " out of range"@)
    }
}

/// The quantizations that the three components of a tile refer to. The first index that is out of
/// range decides the error.
pub open spec fn quants(
    region: ProgressiveRegion,
    idx_y: u8,
    idx_cb: u8,
    idx_cr: u8,
) -> Result<Three<Seq<i32>>, Seq<char>> {
    match quant_entry(region, idx_y) {
        Err(message) => Err(message),
        Ok(y) => match quant_entry(region, idx_cb) {
            Err(message) => Err(message),
            Ok(cb) => match quant_entry(region, idx_cr) {
                Err(message) => Err(message),
                Ok(cr) => Ok(Three { y, cb, cr }),
            },
        },
    }
}

/// The progressive quantizations of a quality: full quality for 0xFF, else an entry of the
/// region's table.
pub open spec fn prog_quants(region: ProgressiveRegion, quality: u8) -> Result<
    Three<Seq<i32>>,
    Seq<char>,
> {
    if quality == 0xFF {
        Ok(Three { y: prog_quant_full(), cb: prog_quant_full(), cr: prog_quant_full() })
    } else if quality < region.quant_prog_vals@.len() {
        let q = region.quant_prog_vals@[quality as int];
        Ok(Three { y: q.y_quant.bands(), cb: q.cb_quant.bands(), cr: q.cr_quant.bands() })
    } else {
        Err("prog-quant quality "@ + text::decimal(quality as nat) + " out of range"@)
    }
}

/// A first pass of a tile, component by component. Where one fails, the components before it keep
/// what they have decoded.
pub open spec fn tile_first(
    before: Option<Tile>,
    quant: Three<Seq<i32>>,
    prog: Three<Seq<i32>>,
    y_data: Result<FirstPassData, String>,
    cb_data: Result<FirstPassData, String>,
    cr_data: Result<FirstPassData, String>,
    coeff_diff: bool,
    extrapolate: bool,
) -> (Tile, Result<Planes, Seq<char>>) {
    let t = Tile {
        pass: 1,
        ..match before {
            Some(t) => t,
            None => Tile::blank(),
        }
    };
    let (y, y_end) = component::first_pass(t.y, quant.y, prog.y, y_data, coeff_diff, extrapolate);
    match y_end {
        Err(message) => (Tile { y, ..t }, Err(message)),
        Ok(y_plane) => {
            let (cb, cb_end) = component::first_pass(
                t.cb,
                quant.cb,
                prog.cb,
                cb_data,
                coeff_diff,
                extrapolate,
            );
            match cb_end {
                Err(message) => (Tile { y, cb, ..t }, Err(message)),
                Ok(cb_plane) => {
                    let (cr, cr_end) = component::first_pass(
                        t.cr,
                        quant.cr,
                        prog.cr,
                        cr_data,
                        coeff_diff,
                        extrapolate,
                    );
                    match cr_end {
                        Err(message) => (Tile { y, cb, cr, ..t }, Err(message)),
                        Ok(cr_plane) => (
                            Tile { y, cb, cr, ..t },
                            Ok(Planes { y: y_plane, cb: cb_plane, cr: cr_plane }),
                        ),
                    }
                },
            }
        },
    }
}

/// The number of a later pass. It does not go beyond the largest 16-bit number.
pub open spec fn next_pass(pass: u16) -> u16 {
    if pass == 0xFFFF {
        pass
    } else {
        (pass + 1) as u16
    }
}

/// An upgrade of a tile.
pub open spec fn tile_upgrade(
    t: Tile,
    quant: Three<Seq<i32>>,
    prog: Three<Seq<i32>>,
    data: TileUpgrade,
) -> Tile {
    Tile {
        y: component::upgrade_pass(
            t.y,
            quant.y,
            prog.y,
            UpgradeStreams { srl: data.y_srl_data@, raw: data.y_raw_data@ },
        ),
        cb: component::upgrade_pass(
            t.cb,
            quant.cb,
            prog.cb,
            UpgradeStreams { srl: data.cb_srl_data@, raw: data.cb_raw_data@ },
        ),
        cr: component::upgrade_pass(
            t.cr,
            quant.cr,
            prog.cr,
            UpgradeStreams { srl: data.cr_srl_data@, raw: data.cr_raw_data@ },
        ),
        pass: next_pass(t.pass),
    }
}

/// The coefficients that are shown after an upgrade: the current ones.
pub open spec fn planes_of(t: Tile) -> Planes {
    Planes {
        y: t.y.coefficients.current,
        cb: t.cb.coefficients.current,
        cr: t.cr.coefficients.current,
    }
}

/// The state of a tile.
pub struct TileState {
    pub y: ComponentState,
    pub cb: ComponentState,
    pub cr: ComponentState,
    pub pass: u16,
}

impl View for TileState {
    type V = Tile;

    open spec fn view(&self) -> Tile {
        Tile { y: self.y@, cb: self.cb@, cr: self.cr@, pass: self.pass }
    }
}

/// The coefficients of a tile.
#[derive(Debug)]
pub struct TilePlanes {
    pub y: Vec<i16>,
    pub cb: Vec<i16>,
    pub cr: Vec<i16>,
}

impl View for TilePlanes {
    type V = Planes;

    open spec fn view(&self) -> Planes {
        Planes { y: self.y@, cb: self.cb@, cr: self.cr@ }
    }
}

/// The quantization values of the three components.
pub open spec fn three_wf(q: Three<[i32; 10]>) -> bool {
    &&& component::quant_wf(q.y@)
    &&& component::quant_wf(q.cb@)
    &&& component::quant_wf(q.cr@)
}

/// The same as sequences.
pub open spec fn three_view(q: Three<[i32; 10]>) -> Three<Seq<i32>> {
    Three { y: q.y@, cb: q.cb@, cr: q.cr@ }
}

/// Looks up a quantization.
pub fn quant_at(region: &ProgressiveRegion, idx: u8) -> (res: Result<[i32; 10], String>)
    requires
        region.wf(),
    ensures
        match quant_entry(*region, idx) {
            Ok(q) => res matches Ok(r) && r@ == q && component::quant_wf(r@),
            Err(message) => res matches Err(e) && e@ == message,
        },
{
    if (idx as usize) < region.quant_vals.len() {
        assert(region.quant_vals@[idx as int].wf());
        Ok(bands(&region.quant_vals[idx as usize]))
    } else {
        let number = decimal_text(idx as u64);
        let mut message = String::from_str("quant index ");
        message.append(number.as_str());
        message.append(" out of range");
        Err(message)
    }
}

/// Looks up the quantizations of the three components.
pub fn quant_set(region: &ProgressiveRegion, idx_y: u8, idx_cb: u8, idx_cr: u8) -> (res: Result<
    Three<[i32; 10]>,
    String,
>)
    requires
        region.wf(),
    ensures
        match quants(*region, idx_y, idx_cb, idx_cr) {
            Ok(q) => res matches Ok(r) && three_view(r) == q && three_wf(r),
            Err(message) => res matches Err(e) && e@ == message,
        },
{
    let y = quant_at(region, idx_y)?;
    let cb = quant_at(region, idx_cb)?;
    let cr = quant_at(region, idx_cr)?;
    Ok(Three { y, cb, cr })
}

/// The quantization of full quality.
pub fn full_quality() -> (r: Three<[i32; 10]>)
    ensures
        three_view(r) == (Three {
            y: prog_quant_full(),
            cb: prog_quant_full(),
            cr: prog_quant_full(),
        }),
        three_wf(r),
{
    let zero: [i32; 10] = [0; 10];
    assert(zero@ =~= prog_quant_full());
    Three { y: zero, cb: zero, cr: zero }
}

/// Looks up the progressive quantizations of a quality.
pub fn prog_quant_set(region: &ProgressiveRegion, quality: u8) -> (res: Result<
    Three<[i32; 10]>,
    String,
>)
    requires
        region.wf(),
    ensures
        match prog_quants(*region, quality) {
            Ok(q) => res matches Ok(r) && three_view(r) == q && three_wf(r),
            Err(message) => res matches Err(e) && e@ == message,
        },
{
    if quality == 0xFF {
        return Ok(full_quality());
    }
    if (quality as usize) < region.quant_prog_vals.len() {
        assert(region.quant_prog_vals@[quality as int].wf());
        let q: &ProgressiveCodecQuant = &region.quant_prog_vals[quality as usize];
        Ok(Three { y: bands(&q.y_quant), cb: bands(&q.cb_quant), cr: bands(&q.cr_quant) })
    } else {
        let number = decimal_text(quality as u64);
        let mut message = String::from_str("prog-quant quality ");
        message.append(number.as_str());
        message.append(" out of range");
        Err(message)
    }
}

impl TileState {
    /// A tile that nothing has been decoded of.
    pub fn new() -> (r: Self)
        ensures
            r@ == Tile::blank(),
            r@.wf(),
    {
        TileState {
            y: ComponentState::new(),
            cb: ComponentState::new(),
            cr: ComponentState::new(),
            pass: 0,
        }
    }

    /// Decodes a first pass. Returns the coefficients to show.
    pub fn decode_tile_first(
        &mut self,
        quant: &Three<[i32; 10]>,
        prog: &Three<[i32; 10]>,
        y_data: &Result<FirstPassData, String>,
        cb_data: &Result<FirstPassData, String>,
        cr_data: &Result<FirstPassData, String>,
        coeff_diff: bool,
        extrapolate: bool,
    ) -> (res: Result<TilePlanes, String>)
        requires
            old(self)@.wf(),
            three_wf(*quant),
            three_wf(*prog),
            stream::data_wf(*y_data, extrapolate),
            stream::data_wf(*cb_data, extrapolate),
            stream::data_wf(*cr_data, extrapolate),
        ensures
            final(self)@.wf(),
            ({
                let (t, end) = tile_first(
                    Some(old(self)@),
                    three_view(*quant),
                    three_view(*prog),
                    *y_data,
                    *cb_data,
                    *cr_data,
                    coeff_diff,
                    extrapolate,
                );
                &&& final(self)@ == t
                &&& match end {
                    Ok(planes) => res matches Ok(p) && p@ == planes,
                    Err(message) => res matches Err(e) && e@ == message,
                }
            }),
    {
        self.pass = 1;
        let y = self.y.decode_first(&quant.y, &prog.y, y_data, coeff_diff, extrapolate)?;
        let cb = self.cb.decode_first(&quant.cb, &prog.cb, cb_data, coeff_diff, extrapolate)?;
        let cr = self.cr.decode_first(&quant.cr, &prog.cr, cr_data, coeff_diff, extrapolate)?;
        Ok(TilePlanes { y, cb, cr })
    }

    /// Decodes an upgrade. Returns the coefficients to show.
    pub fn decode_tile_upgrade(
        &mut self,
        quant: &Three<[i32; 10]>,
        prog: &Three<[i32; 10]>,
        data: &TileUpgrade,
    ) -> (planes: TilePlanes)
        requires
            old(self)@.wf(),
            three_wf(*quant),
            three_wf(*prog),
        ensures
            final(self)@.wf(),
            final(self)@ == tile_upgrade(old(self)@, three_view(*quant), three_view(*prog), *data),
            planes@ == planes_of(final(self)@),
    {
        self.pass = self.pass.saturating_add(1);
        let y = self.y.decode_upgrade(
            &quant.y,
            &prog.y,
            data.y_srl_data.as_slice(),
            data.y_raw_data.as_slice(),
        );
        let cb = self.cb.decode_upgrade(
            &quant.cb,
            &prog.cb,
            data.cb_srl_data.as_slice(),
            data.cb_raw_data.as_slice(),
        );
        let cr = self.cr.decode_upgrade(
            &quant.cr,
            &prog.cr,
            data.cr_srl_data.as_slice(),
            data.cr_raw_data.as_slice(),
        );
        TilePlanes { y, cb, cr }
    }
}

} // verus!
