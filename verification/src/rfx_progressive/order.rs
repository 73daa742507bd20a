//! Painting may wait.
//!
//! A stream is decoded first and its tiles are painted afterwards. This gives what decoding and
//! painting tile by tile gives.

use crate::rfx_progressive::decoder;
use crate::rfx_progressive::decoder::{Progress, Shown, Surface};
use crate::rfx_progressive::stream::{ProgressiveBlock, ProgressiveRegion, ProgressiveTile};
use crate::rfx_progressive::update::Summary;
use vstd::prelude::*;

verus! {

/// The progress and the framebuffer after the tiles of a region from `i` on, each painted as soon
/// as it is decoded. The `n`-th tile that is shown has the `n`-th pixels.
pub open spec fn tiles_at_once(
    p: Progress,
    dst: Seq<u8>,
    region: ProgressiveRegion,
    block: int,
    i: int,
    pixels: Seq<Vec<u8>>,
    stride: int,
) -> (Progress, Seq<u8>)
    decreases region.tiles@.len() - i,
{
    if i >= region.tiles@.len() {
        (p, dst)
    } else {
        let t = region.tiles@[i];
        let q = decoder::tile_step(p, region, block, t);
        if q.shown.len() > p.shown.len() {
            let (painted, summary) = decoder::paint_step(
                q.surface,
                region.rects@,
                t.column(),
                t.row(),
                pixels[p.shown.len() as int]@,
                stride,
                dst,
                q.summary,
            );
            tiles_at_once(
                Progress { summary, ..q },
                painted,
                region,
                block,
                i + 1,
                pixels,
                stride,
            )
        } else {
            tiles_at_once(q, dst, region, block, i + 1, pixels, stride)
        }
    }
}

/// The progress and the framebuffer after the blocks from `k` on, in the same way.
pub open spec fn blocks_at_once(
    p: Progress,
    dst: Seq<u8>,
    blocks: Seq<ProgressiveBlock>,
    k: int,
    pixels: Seq<Vec<u8>>,
    stride: int,
) -> (Progress, Seq<u8>)
    decreases blocks.len() - k,
{
    if k >= blocks.len() {
        (p, dst)
    } else {
        match blocks[k] {
            ProgressiveBlock::Region(region) => {
                let entered = Progress {
                    summary: decoder::enter_region(p.summary, region),
                    ..p
                };
                let (q, painted) = tiles_at_once(entered, dst, region, k, 0, pixels, stride);
                blocks_at_once(q, painted, blocks, k + 1, pixels, stride)
            },
            _ => blocks_at_once(p, dst, blocks, k + 1, pixels, stride),
        }
    }
}

/// To decode a whole stream and then to paint its tiles comes to the same as to paint each tile
/// as soon as it is decoded.
pub proof fn law_painting_may_wait(
    s: Surface,
    blocks: Seq<ProgressiveBlock>,
    pixels: Seq<Vec<u8>>,
    stride: int,
    dst: Seq<u8>,
)
    ensures
        ({
            let p = decoder::progressive_decode(s, blocks);
            let (painted, summary) = decoder::paint_from(
                p.surface,
                blocks,
                p.shown,
                pixels,
                stride,
                dst,
                p.summary,
                0,
            );
            blocks_at_once(
                Progress { surface: s, summary: Summary::empty(), shown: Seq::empty() },
                dst,
                blocks,
                0,
                pixels,
                stride,
            ) == (Progress { summary, ..p }, painted)
        }),
{
    let start = Progress { surface: s, summary: Summary::empty(), shown: Seq::empty() };
    let p = decoder::progressive_decode(s, blocks);
    assert(joined(Summary::empty(), Summary::empty()) =~= Summary::empty());
    lemma_blocks(start, s, dst, blocks, 0, pixels, stride);
    lemma_blocks_keep(start, blocks, 0);
    lemma_paint_joined(
        s,
        p.surface,
        blocks,
        p.shown,
        pixels,
        stride,
        dst,
        p.summary,
        Summary::empty(),
        0,
    );
    assert(joined(p.summary, Summary::empty()) =~= p.summary);
}

/// What decoding counts in `u`, with what painting records in `v`.
spec fn joined(u: Summary, v: Summary) -> Summary {
    Summary {
        dirty: v.dirty,
        black_tiles: v.black_tiles,
        first_black: v.first_black,
        ..u
    }
}

/// The summary and the framebuffer after the tiles so far have been painted.
spec fn painting(
    s: Surface,
    dst: Seq<u8>,
    blocks: Seq<ProgressiveBlock>,
    shown: Seq<Shown>,
    pixels: Seq<Vec<u8>>,
    stride: int,
) -> (Seq<u8>, Summary) {
    decoder::paint_from(s, blocks, shown, pixels, stride, dst, Summary::empty(), 0)
}

/// Decoding a tile pays no heed to what painting has recorded, and adds nothing to it.
proof fn lemma_step_joined(
    p: Progress,
    v: Summary,
    region: ProgressiveRegion,
    block: int,
    t: ProgressiveTile,
)
    ensures
        ({
            let q = decoder::tile_step(p, region, block, t);
            &&& decoder::tile_step(
                Progress { summary: joined(p.summary, v), ..p },
                region,
                block,
                t,
            ) == (Progress { summary: joined(q.summary, v), ..q })
            &&& q.surface.width == p.surface.width
            &&& q.surface.height == p.surface.height
            &&& q.summary.dirty == p.summary.dirty
            &&& q.summary.black_tiles == p.summary.black_tiles
            &&& q.summary.first_black == p.summary.first_black
        }),
{
}

/// Painting pays no heed to what decoding has counted.
proof fn lemma_paint_joined(
    s: Surface,
    same_size: Surface,
    blocks: Seq<ProgressiveBlock>,
    shown: Seq<Shown>,
    pixels: Seq<Vec<u8>>,
    stride: int,
    dst: Seq<u8>,
    u: Summary,
    v: Summary,
    i: int,
)
    requires
        s.width == same_size.width,
        s.height == same_size.height,
        0 <= i,
    ensures
        ({
            let plain = decoder::paint_from(s, blocks, shown, pixels, stride, dst, v, i);
            decoder::paint_from(
                same_size,
                blocks,
                shown,
                pixels,
                stride,
                dst,
                joined(u, v),
                i,
            ) == (plain.0, joined(u, plain.1))
        }),
    decreases shown.len() - i,
{
    if i < shown.len() {
        let t = shown[i];
        let rects = decoder::rects_of(blocks[t.block]);
        let plain = decoder::paint_step(
            s,
            rects,
            t.x_idx,
            t.y_idx,
            pixels[i]@,
            stride,
            dst,
            v,
        );
        let other = decoder::paint_step(
            same_size,
            rects,
            t.x_idx,
            t.y_idx,
            pixels[i]@,
            stride,
            dst,
            joined(u, v),
        );
        assert(other == (plain.0, joined(u, plain.1)));
        lemma_paint_joined(
            s,
            same_size,
            blocks,
            shown,
            pixels,
            stride,
            plain.0,
            u,
            plain.1,
            i + 1,
        );
    }
}

/// Painting one more tile.
pub proof fn lemma_paint_push(
    s: Surface,
    blocks: Seq<ProgressiveBlock>,
    shown: Seq<Shown>,
    t: Shown,
    pixels: Seq<Vec<u8>>,
    stride: int,
    dst: Seq<u8>,
    v: Summary,
    i: int,
)
    requires
        0 <= i <= shown.len(),
    ensures
        ({
            let before = decoder::paint_from(s, blocks, shown, pixels, stride, dst, v, i);
            decoder::paint_from(s, blocks, shown.push(t), pixels, stride, dst, v, i)
                == decoder::paint_step(
                s,
                decoder::rects_of(blocks[t.block]),
                t.x_idx,
                t.y_idx,
                pixels[shown.len() as int]@,
                stride,
                before.0,
                before.1,
            )
        }),
    decreases shown.len() - i,
{
    let more = shown.push(t);
    if i < shown.len() {
        let first = shown[i];
        assert(more[i] == first);
        let (painted, next) = decoder::paint_step(
            s,
            decoder::rects_of(blocks[first.block]),
            first.x_idx,
            first.y_idx,
            pixels[i]@,
            stride,
            dst,
            v,
        );
        lemma_paint_push(s, blocks, shown, t, pixels, stride, painted, next, i + 1);
    } else {
        let (painted, next) = decoder::paint_step(
            s,
            decoder::rects_of(blocks[t.block]),
            t.x_idx,
            t.y_idx,
            pixels[i]@,
            stride,
            dst,
            v,
        );
        assert(more[i] == t);
        assert(decoder::paint_from(s, blocks, more, pixels, stride, painted, next, i + 1) == (
            painted,
            next,
        ));
    }
}

proof fn lemma_tiles(
    p: Progress,
    s: Surface,
    dst: Seq<u8>,
    blocks: Seq<ProgressiveBlock>,
    region: ProgressiveRegion,
    block: int,
    i: int,
    pixels: Seq<Vec<u8>>,
    stride: int,
)
    requires
        s.width == p.surface.width,
        s.height == p.surface.height,
        decoder::rects_of(blocks[block]) == region.rects@,
    ensures
        ({
            let now = painting(s, dst, blocks, p.shown, pixels, stride);
            let q = decoder::tiles_from(p, region, block, i);
            let later = painting(s, dst, blocks, q.shown, pixels, stride);
            &&& tiles_at_once(
                Progress { summary: joined(p.summary, now.1), ..p },
                now.0,
                region,
                block,
                i,
                pixels,
                stride,
            ) == (Progress { summary: joined(q.summary, later.1), ..q }, later.0)
            &&& s.width == q.surface.width
            &&& s.height == q.surface.height
        }),
    decreases region.tiles@.len() - i,
{
    if i < region.tiles@.len() {
        let t = region.tiles@[i];
        let now = painting(s, dst, blocks, p.shown, pixels, stride);
        let q = decoder::tile_step(p, region, block, t);
        lemma_step_joined(p, now.1, region, block, t);
        if q.shown.len() > p.shown.len() {
            let shown = q.shown.last();
            assert(q.shown == p.shown.push(shown));
            lemma_paint_push(
                s,
                blocks,
                p.shown,
                shown,
                pixels,
                stride,
                dst,
                Summary::empty(),
                0,
            );
            let next = painting(s, dst, blocks, q.shown, pixels, stride);
            let step = decoder::paint_step(
                q.surface,
                region.rects@,
                t.column(),
                t.row(),
                pixels[p.shown.len() as int]@,
                stride,
                now.0,
                joined(q.summary, now.1),
            );
            assert(step == (next.0, joined(q.summary, next.1)));
        }
        lemma_tiles(q, s, dst, blocks, region, block, i + 1, pixels, stride);
    }
}

proof fn lemma_blocks(
    p: Progress,
    s: Surface,
    dst: Seq<u8>,
    blocks: Seq<ProgressiveBlock>,
    k: int,
    pixels: Seq<Vec<u8>>,
    stride: int,
)
    requires
        s.width == p.surface.width,
        s.height == p.surface.height,
    ensures
        ({
            let now = painting(s, dst, blocks, p.shown, pixels, stride);
            let q = decoder::blocks_from(p, blocks, k);
            let later = painting(s, dst, blocks, q.shown, pixels, stride);
            &&& blocks_at_once(
                Progress { summary: joined(p.summary, now.1), ..p },
                now.0,
                blocks,
                k,
                pixels,
                stride,
            ) == (Progress { summary: joined(q.summary, later.1), ..q }, later.0)
            &&& s.width == q.surface.width
            &&& s.height == q.surface.height
        }),
    decreases blocks.len() - k,
{
    if k < blocks.len() {
        match blocks[k] {
            ProgressiveBlock::Region(region) => {
                let now = painting(s, dst, blocks, p.shown, pixels, stride);
                let entered = Progress {
                    summary: decoder::enter_region(p.summary, region),
                    ..p
                };
                assert(decoder::enter_region(joined(p.summary, now.1), region) =~= joined(
                    entered.summary,
                    now.1,
                ));
                lemma_tiles(entered, s, dst, blocks, region, k, 0, pixels, stride);
                lemma_blocks(
                    decoder::region_step(p, region, k),
                    s,
                    dst,
                    blocks,
                    k + 1,
                    pixels,
                    stride,
                );
            },
            _ => {
                lemma_blocks(p, s, dst, blocks, k + 1, pixels, stride);
            },
        }
    }
}

/// Decoding adds nothing to what painting records.
proof fn lemma_blocks_keep(p: Progress, blocks: Seq<ProgressiveBlock>, k: int)
    ensures
        ({
            let q = decoder::blocks_from(p, blocks, k);
            &&& q.summary.dirty == p.summary.dirty
            &&& q.summary.black_tiles == p.summary.black_tiles
            &&& q.summary.first_black == p.summary.first_black
        }),
    decreases blocks.len() - k,
{
    if k < blocks.len() {
        match blocks[k] {
            ProgressiveBlock::Region(region) => {
                let entered = Progress {
                    summary: decoder::enter_region(p.summary, region),
                    ..p
                };
                lemma_tiles_keep(entered, region, k, 0);
                lemma_blocks_keep(decoder::region_step(p, region, k), blocks, k + 1);
            },
            _ => {
                lemma_blocks_keep(p, blocks, k + 1);
            },
        }
    }
}

proof fn lemma_tiles_keep(p: Progress, region: ProgressiveRegion, block: int, i: int)
    ensures
        ({
            let q = decoder::tiles_from(p, region, block, i);
            &&& q.summary.dirty == p.summary.dirty
            &&& q.summary.black_tiles == p.summary.black_tiles
            &&& q.summary.first_black == p.summary.first_black
        }),
    decreases region.tiles@.len() - i,
{
    if i < region.tiles@.len() {
        let t = region.tiles@[i];
        lemma_step_joined(p, p.summary, region, block, t);
        lemma_tiles_keep(decoder::tile_step(p, region, block, t), region, block, i + 1);
    }
}

} // verus!
