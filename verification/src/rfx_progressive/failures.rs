//! Why a tile is not shown.

use crate::rfx_progressive::decoder::Surface;
use crate::rfx_progressive::stream::{ProgressiveRegion, ProgressiveTile};
use crate::rfx_progressive::update::Summary;
use crate::rfx_progressive::{decoder, laws, passes};
use crate::text;
use vstd::prelude::*;

verus! {

/// The message for an entry of the region's table that a tile refers to and that is not there.
pub open spec fn missing_entry(n: int) -> Seq<char> {
    "quant index "@ + text::decimal(n as nat) + " out of range"@
}

/// The first of the three quantizations of a tile that is not among the `n` of its region.
pub open spec fn missing_quant(n: int, y: int, cb: int, cr: int) -> Option<int> {
    if y >= n {
        Some(y)
    } else if cb >= n {
        Some(cb)
    } else if cr >= n {
        Some(cr)
    } else {
        None
    }
}

/// Why a tile is not shown, if it is not: it lies outside the surface, refers to a quantization or
/// to a quality that is not there, improves on a tile that is not there, or the coefficients of a
/// component could not be decoded.
pub open spec fn fault(s: Surface, region: ProgressiveRegion, t: ProgressiveTile) -> Option<
    Seq<char>,
> {
    let (x, y) = (passes::column_of(t), passes::row_of(t));
    let (q_y, q_cb, q_cr, quality) = match t {
        ProgressiveTile::Simple(d) => (d.quant_idx_y, d.quant_idx_cb, d.quant_idx_cr, 0xFFu8),
        ProgressiveTile::First(d) => (d.quant_idx_y, d.quant_idx_cb, d.quant_idx_cr, d.quality),
        ProgressiveTile::Upgrade(d) => (d.quant_idx_y, d.quant_idx_cb, d.quant_idx_cr, d.quality),
    };
    let missing = missing_quant(
        region.quant_vals@.len() as int,
        q_y as int,
        q_cb as int,
        q_cr as int,
    );
    if !passes::on_surface(s, x, y) {
        Some(
            "index ("@ + text::decimal(x as nat) + ","@ + text::decimal(y as nat)
                + ") outside grid "@ + text::decimal(((s.width + 63) / 64) as nat) + "x"@
                + text::decimal(((s.height + 63) / 64) as nat),
        )
    } else if missing is Some {
        Some(missing_entry(missing->0))
    } else if passes::held_back(region, quality) is None {
        Some("prog-quant quality "@ + text::decimal(quality as nat) + " out of range"@)
    } else {
        match passes::as_first(t) {
            None => if s.tiles[passes::place(s, x, y)] is None {
                Some("upgrade before first pass"@)
            } else {
                None
            },
            Some(f) => if f.y_data is Err {
                Some("rlgr decode: "@ + f.y_data->Err_0@)
            } else if f.cb_data is Err {
                Some("rlgr decode: "@ + f.cb_data->Err_0@)
            } else if f.cr_data is Err {
                Some("rlgr decode: "@ + f.cr_data->Err_0@)
            } else {
                None
            },
        }
    }
}

/// A tile is refused for its first fault, and else shown.
pub proof fn law_tile_is_refused_for_its_first_fault(
    s: Surface,
    region: ProgressiveRegion,
    t: ProgressiveTile,
    u: Summary,
)
    requires
        s.wf(),
        region.wf(),
    ensures
        decoder::decode_tile(s, region, t, u).2 is Err <==> fault(s, region, t) is Some,
        fault(s, region, t) matches Some(message) ==> decoder::decode_tile(
            s,
            region,
            t,
            u,
        ).2->Err_0 == message,
{
    passes::law_tiles_on_the_surface_are_held(s, t);
    if s.holds(t) {
        laws::law_tiles_have_their_own_places(s, t, t);
    }
}

} // verus!
