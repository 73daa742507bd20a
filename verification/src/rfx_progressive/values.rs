//! What the values that the contracts speak of hold.

use crate::rfx_progressive::component::ComponentState;
use crate::rfx_progressive::decoder;
use crate::rfx_progressive::decoder::DecodedTile;
use crate::rfx_progressive::tile;
use crate::rfx_progressive::tile::{Three, TilePlanes, TileState};
use crate::rfx_progressive::update::ProgressiveUpdate;
use crate::rfx_progressive::upgrade::UpgradeState;
use vstd::prelude::*;

verus! {

/// The value of a summary has every field of it.
pub proof fn law_summary_holds_every_field(u: ProgressiveUpdate)
    ensures
        u@.dirty == u.dirty@,
        u@.tiles_simple == u.tiles_simple,
        u@.tiles_first == u.tiles_first,
        u@.tiles_upgrade == u.tiles_upgrade,
        u@.regions == u.regions,
        u@.region0_rects == u.region0_rects,
        u@.extrapolate == u.extrapolate,
        u@.coeff_diff_tiles == u.coeff_diff_tiles,
        u@.errors == u.errors,
        u@.first_error is Some <==> u.first_error is Some,
        u.first_error matches Some(message) ==> u@.first_error == Some(message@),
        u@.black_tiles == u.black_tiles,
        u@.first_black == u.first_black,
{
}

/// The value of a tile, and that of a list of tiles to show, has every field.
pub proof fn law_tiles_hold_every_field(
    t: TileState,
    c: ComponentState,
    p: TilePlanes,
    shown: DecodedTile,
    list: Seq<DecodedTile>,
    q: Three<[i32; 10]>,
)
    ensures
        t@.y == t.y@,
        t@.cb == t.cb@,
        t@.cr == t.cr@,
        t@.pass == t.pass,
        c@.coefficients.current == c.current@,
        c@.coefficients.sign == c.sign@,
        c@.bit_pos == c.bit_pos@,
        p@.y == p.y@,
        p@.cb == p.cb@,
        p@.cr == p.cr@,
        shown@.x_idx == shown.x_idx,
        shown@.y_idx == shown.y_idx,
        shown@.block == shown.block,
        shown@.extrapolate == shown.extrapolate,
        shown@.planes == shown.planes@,
        decoder::shown_tiles(list).len() == list.len(),
        forall|i: int|
            0 <= i < list.len() ==> #[trigger] decoder::shown_tiles(list)[i] == list[i]@,
        tile::three_view(q).y == q.y@,
        tile::three_view(q).cb == q.cb@,
        tile::three_view(q).cr == q.cr@,
{
}

/// The value of an upgrade has every field of it.
pub proof fn law_upgrade_holds_every_field(u: UpgradeState<'_>)
    ensures
        u.position().srl == u.srl.pos,
        u.position().raw == u.raw.pos,
        u.position().kp == u.kp,
        u.position().nz == u.nz,
        u.position().mode == u.mode,
        u.streams().srl == u.srl.data@,
        u.streams().raw == u.raw.data@,
{
}

} // verus!
