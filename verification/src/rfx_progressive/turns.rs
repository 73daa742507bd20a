//! Blocks and tiles are taken in turn.
//!
//! What a stream leads to is told by what one more block, and one more tile of a region, adds to
//! it.

use crate::rfx_progressive::decoder::{Progress, Shown, Surface};
use crate::rfx_progressive::stream::{ProgressiveBlock, ProgressiveRegion, ProgressiveTile};
use crate::rfx_progressive::update::Summary;
use crate::rfx_progressive::{decoder, passes};
use crate::text;
use vstd::prelude::*;

verus! {

/// A surface that is new has a place for every tile that it takes to cover it, and nothing is
/// remembered of any. A stream without blocks leads to nothing.
pub proof fn law_everything_starts_empty(width: u16, height: u16, s: Surface)
    ensures
        ({
            let fresh = Surface::fresh(width, height);
            &&& fresh.width == width && fresh.height == height
            &&& fresh.tiles.len() == ((width + 63) / 64) * ((height + 63) / 64)
            &&& forall|i: int| 0 <= i < fresh.tiles.len() ==> #[trigger] fresh.tiles[i] is None
        }),
        ({
            let p = decoder::progressive_decode(s, Seq::empty());
            &&& p.surface == s
            &&& p.shown.len() == 0
            &&& p.summary.dirty.len() == 0
            &&& p.summary.tiles_simple == 0
            &&& p.summary.tiles_first == 0
            &&& p.summary.tiles_upgrade == 0
            &&& p.summary.regions == 0
            &&& p.summary.region0_rects == 0
            &&& !p.summary.extrapolate
            &&& p.summary.coeff_diff_tiles == 0
            &&& p.summary.errors == 0
            &&& p.summary.first_error is None
            &&& p.summary.black_tiles == 0
            &&& p.summary.first_black is None
        }),
{
    let w = (width + 63) / 64;
    let h = (height + 63) / 64;
    assert(0 <= w * h) by (nonlinear_arith)
        requires
            0 <= w,
            0 <= h,
    ;
}

/// The progress after one more block.
proof fn lemma_one_more_block(
    p: Progress,
    blocks: Seq<ProgressiveBlock>,
    block: ProgressiveBlock,
    k: int,
)
    requires
        0 <= k <= blocks.len(),
    ensures
        ({
            let q = decoder::blocks_from(p, blocks, k);
            decoder::blocks_from(p, blocks.push(block), k) == match block {
                ProgressiveBlock::Region(region) => decoder::region_step(
                    q,
                    region,
                    blocks.len() as int,
                ),
                _ => q,
            }
        }),
    decreases blocks.len() - k,
{
    let more = blocks.push(block);
    if k < blocks.len() {
        assert(more[k] == blocks[k]);
        match blocks[k] {
            ProgressiveBlock::Region(region) => {
                lemma_one_more_block(decoder::region_step(p, region, k), blocks, block, k + 1);
            },
            _ => {
                lemma_one_more_block(p, blocks, block, k + 1);
            },
        }
    } else {
        assert(more[k] == block);
        reveal_with_fuel(decoder::blocks_from, 2);
    }
}

/// A block that is no region changes nothing.
pub proof fn law_other_blocks_do_nothing(
    s: Surface,
    blocks: Seq<ProgressiveBlock>,
    block: ProgressiveBlock,
)
    requires
        block !is Region,
    ensures
        decoder::progressive_decode(s, blocks.push(block)) == decoder::progressive_decode(
            s,
            blocks,
        ),
{
    let start = Progress { surface: s, summary: Summary::empty(), shown: Seq::empty() };
    lemma_one_more_block(start, blocks, block, 0);
}

/// A region without tiles is counted, with the number of its rectangles if it is the first, and it
/// is noted which transform it uses. Nothing else changes.
pub proof fn law_region_is_entered(
    s: Surface,
    blocks: Seq<ProgressiveBlock>,
    region: ProgressiveRegion,
)
    requires
        region.tiles@.len() == 0,
    ensures
        ({
            let p = decoder::progressive_decode(s, blocks);
            let q = decoder::progressive_decode(
                s,
                blocks.push(ProgressiveBlock::Region(region)),
            );
            &&& q.surface == p.surface
            &&& q.shown == p.shown
            &&& q.summary == (Summary {
                regions: p.summary.regions + 1,
                extrapolate: region.reduce_extrapolate,
                region0_rects: if p.summary.regions == 0 {
                    region.rects@.len() as int % 0x1_0000_0000
                } else {
                    p.summary.region0_rects
                },
                ..p.summary
            })
        }),
{
    let start = Progress { surface: s, summary: Summary::empty(), shown: Seq::empty() };
    lemma_one_more_block(start, blocks, ProgressiveBlock::Region(region), 0);
}

/// A region with one more tile.
pub open spec fn has_one_more(
    region: ProgressiveRegion,
    more: ProgressiveRegion,
    t: ProgressiveTile,
) -> bool {
    &&& more.tiles@ == region.tiles@.push(t)
    &&& more.rects == region.rects
    &&& more.quant_vals == region.quant_vals
    &&& more.quant_prog_vals == region.quant_prog_vals
    &&& more.reduce_extrapolate == region.reduce_extrapolate
}

proof fn lemma_one_more_tile(
    p: Progress,
    region: ProgressiveRegion,
    more: ProgressiveRegion,
    t: ProgressiveTile,
    block: int,
    i: int,
)
    requires
        has_one_more(region, more, t),
        0 <= i <= region.tiles@.len(),
    ensures
        decoder::tiles_from(p, more, block, i) == decoder::tile_step(
            decoder::tiles_from(p, region, block, i),
            more,
            block,
            t,
        ),
    decreases region.tiles@.len() - i,
{
    if i < region.tiles@.len() {
        let here = region.tiles@[i];
        assert(more.tiles@[i] == here);
        assert(decoder::tile_step(p, more, block, here) == decoder::tile_step(
            p,
            region,
            block,
            here,
        ));
        lemma_one_more_tile(
            decoder::tile_step(p, region, block, here),
            region,
            more,
            t,
            block,
            i + 1,
        );
    } else {
        assert(more.tiles@[i] == t);
        reveal_with_fuel(decoder::tiles_from, 2);
    }
}

/// One more tile of a region is decoded on what the ones before it have left, whether or not they
/// could be decoded. If it can be, it is shown last, at its own place in the grid, as one of its
/// region's block, and counted by its kind; if not, it is counted as an error, of which the first
/// is told. A difference is counted once the tile is known to lie on the surface.
pub proof fn law_tiles_are_decoded_in_turn(
    s: Surface,
    blocks: Seq<ProgressiveBlock>,
    region: ProgressiveRegion,
    more: ProgressiveRegion,
    t: ProgressiveTile,
)
    requires
        has_one_more(region, more, t),
    ensures
        ({
            let p = decoder::progressive_decode(
                s,
                blocks.push(ProgressiveBlock::Region(region)),
            );
            let q = decoder::progressive_decode(s, blocks.push(ProgressiveBlock::Region(more)));
            let (surface, _, end) = decoder::decode_tile(p.surface, more, t, p.summary);
            let x = passes::column_of(t);
            let y = passes::row_of(t);
            let one = |counts: bool|
                if counts {
                    1int
                } else {
                    0
                };
            &&& q.surface == surface
            &&& q.shown == match end {
                Ok(planes) => p.shown.push(
                    Shown {
                        x_idx: x,
                        y_idx: y,
                        block: blocks.len() as int,
                        extrapolate: region.reduce_extrapolate,
                        planes,
                    },
                ),
                Err(_) => p.shown,
            }
            &&& q.summary.tiles_simple == p.summary.tiles_simple + one(end is Ok && t is Simple)
            &&& q.summary.tiles_first == p.summary.tiles_first + one(end is Ok && t is First)
            &&& q.summary.tiles_upgrade == p.summary.tiles_upgrade + one(end is Ok && t is Upgrade)
            &&& q.summary.coeff_diff_tiles == p.summary.coeff_diff_tiles + one(
                passes::on_surface(p.surface, x, y) && (passes::as_first(t) matches Some(f)
                    && f.difference),
            )
            &&& q.summary.errors == p.summary.errors + one(end is Err)
            &&& q.summary.first_error == match end {
                Err(message) => if p.summary.first_error is None {
                    Some(
                        "tile ("@ + text::decimal(x as nat) + ","@ + text::decimal(y as nat)
                            + "): "@ + message,
                    )
                } else {
                    p.summary.first_error
                },
                Ok(_) => p.summary.first_error,
            }
            &&& q.summary.dirty == p.summary.dirty
            &&& q.summary.regions == p.summary.regions
            &&& q.summary.region0_rects == p.summary.region0_rects
            &&& q.summary.extrapolate == p.summary.extrapolate
            &&& q.summary.black_tiles == p.summary.black_tiles
            &&& q.summary.first_black == p.summary.first_black
        }),
{
    let start = Progress { surface: s, summary: Summary::empty(), shown: Seq::empty() };
    lemma_one_more_block(start, blocks, ProgressiveBlock::Region(region), 0);
    lemma_one_more_block(start, blocks, ProgressiveBlock::Region(more), 0);
    let q = decoder::progressive_decode(s, blocks);
    let entered = Progress { summary: decoder::enter_region(q.summary, region), ..q };
    assert(decoder::enter_region(q.summary, more) == decoder::enter_region(q.summary, region));
    lemma_one_more_tile(entered, region, more, t, blocks.len() as int, 0);
    let p = decoder::progressive_decode(s, blocks.push(ProgressiveBlock::Region(region)));
    lemma_step(p, more, blocks.len() as int, t);
}

proof fn lemma_step(p: Progress, region: ProgressiveRegion, block: int, t: ProgressiveTile)
    ensures
        ({
            let q = decoder::tile_step(p, region, block, t);
            let (surface, _, end) = decoder::decode_tile(p.surface, region, t, p.summary);
            let x = passes::column_of(t);
            let y = passes::row_of(t);
            let difference = passes::on_surface(p.surface, x, y) && (passes::as_first(t) matches
                Some(f) && f.difference);
            &&& q.surface == surface
            &&& q.shown == match end {
                Ok(planes) => p.shown.push(
                    Shown {
                        x_idx: x,
                        y_idx: y,
                        block,
                        extrapolate: region.reduce_extrapolate,
                        planes,
                    },
                ),
                Err(_) => p.shown,
            }
            &&& q.summary.tiles_simple == p.summary.tiles_simple + if end is Ok && t is Simple {
                1int
            } else {
                0
            }
            &&& q.summary.tiles_first == p.summary.tiles_first + if end is Ok && t is First {
                1int
            } else {
                0
            }
            &&& q.summary.tiles_upgrade == p.summary.tiles_upgrade + if end is Ok && t is Upgrade {
                1int
            } else {
                0
            }
            &&& q.summary.coeff_diff_tiles == p.summary.coeff_diff_tiles + if difference {
                1int
            } else {
                0
            }
            &&& q.summary.errors == p.summary.errors + if end is Err {
                1int
            } else {
                0
            }
            &&& q.summary.first_error == match end {
                Err(message) => if p.summary.first_error is None {
                    Some(
                        "tile ("@ + text::decimal(x as nat) + ","@ + text::decimal(y as nat)
                            + "): "@ + message,
                    )
                } else {
                    p.summary.first_error
                },
                Ok(_) => p.summary.first_error,
            }
            &&& q.summary.dirty == p.summary.dirty
            &&& q.summary.regions == p.summary.regions
            &&& q.summary.region0_rects == p.summary.region0_rects
            &&& q.summary.extrapolate == p.summary.extrapolate
            &&& q.summary.black_tiles == p.summary.black_tiles
            &&& q.summary.first_black == p.summary.first_black
        }),
{
    passes::law_tiles_on_the_surface_are_held(p.surface, t);
    match t {
        ProgressiveTile::Simple(d) => {
            passes::lemma_flag(d.flags);
        },
        ProgressiveTile::First(d) => {
            passes::lemma_flag(d.flags);
        },
        _ => {},
    }
}

} // verus!
