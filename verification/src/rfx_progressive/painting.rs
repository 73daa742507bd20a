//! What painting a tile does to the framebuffer.

use crate::rfx_progressive::decoder::{Shown, Surface};
use crate::rfx_progressive::stream::{ProgressiveBlock, ProgressiveRegion, RfxRectangle};
use crate::rfx_progressive::update::Summary;
use crate::rfx_progressive::{blit, decoder, laws, order};
use vstd::prelude::*;

verus! {

/// A pixel lies in a rectangle.
pub open spec fn covers(r: RfxRectangle, x: int, y: int) -> bool {
    r.x <= x < r.x + r.width && r.y <= y < r.y + r.height
}

/// A pixel of the framebuffer belongs to the tile at column `x_idx` and row `y_idx` of the grid, to
/// the surface, and to one of the rectangles.
pub open spec fn is_painted(
    s: Surface,
    rects: Seq<RfxRectangle>,
    x_idx: u16,
    y_idx: u16,
    x: int,
    y: int,
) -> bool {
    &&& 64 * x_idx <= x < 64 * x_idx + 64
    &&& 64 * y_idx <= y < 64 * y_idx + 64
    &&& x < s.width
    &&& y < s.height
    &&& exists|j: int| 0 <= j < rects.len() && covers(#[trigger] rects[j], x, y)
}

/// A pixel of a tile is black, or nearly so.
pub open spec fn nearly_black(rgba: Seq<u8>, x: int, y: int) -> bool {
    &&& rgba[4 * (64 * y + x)] <= 10
    &&& rgba[4 * (64 * y + x) + 1] <= 10
    &&& rgba[4 * (64 * y + x) + 2] <= 10
}

/// One of the columns, or rows, that a tile is sampled in.
pub open spec fn is_sampled(n: int) -> bool {
    n == 4 || n == 32 || n == 60
}

/// The pixels of a tile are nearly black wherever it is sampled.
pub open spec fn seems_black(rgba: Seq<u8>) -> bool {
    forall|x: int, y: int| is_sampled(x) && is_sampled(y) ==> #[trigger] nearly_black(rgba, x, y)
}

proof fn lemma_black(rgba: Seq<u8>)
    ensures
        blit::looks_black(rgba) <==> seems_black(rgba),
{
    assert(is_sampled(4) && is_sampled(32) && is_sampled(60));
    if seems_black(rgba) {
        assert(nearly_black(rgba, 4, 4) && nearly_black(rgba, 32, 4) && nearly_black(rgba, 60, 4));
        assert(nearly_black(rgba, 4, 32) && nearly_black(rgba, 32, 32) && nearly_black(
            rgba,
            60,
            32,
        ));
        assert(nearly_black(rgba, 4, 60) && nearly_black(rgba, 32, 60) && nearly_black(
            rgba,
            60,
            60,
        ));
    }
    if blit::looks_black(rgba) {
        assert forall|x: int, y: int|
            is_sampled(x) && is_sampled(y) implies #[trigger] nearly_black(rgba, x, y) by {
            assert(blit::dark(rgba, x, y));
        }
    }
}

proof fn lemma_visible(
    s: Surface,
    rects: Seq<RfxRectangle>,
    x_idx: u16,
    y_idx: u16,
    x: int,
    y: int,
)
    ensures
        laws::visible(
            s.width as int,
            s.height as int,
            64 * x_idx,
            64 * y_idx,
            rects,
            0,
            x,
            y,
        ) <==> is_painted(s, rects, x_idx, y_idx, x, y),
{
    let tx = 64 * x_idx;
    let ty = 64 * y_idx;
    let w = s.width as int;
    let h = s.height as int;
    if laws::visible(w, h, tx, ty, rects, 0, x, y) {
        let j = choose|j: int|
            0 <= j < rects.len() && (blit::clip(w, h, tx, ty, #[trigger] rects[j]) matches Some(c)
                && laws::inside(c, x, y));
        laws::law_clip_is_the_intersection(s.width, s.height, tx, ty, rects[j], x, y);
        assert(covers(rects[j], x, y));
    }
    if is_painted(s, rects, x_idx, y_idx, x, y) {
        let j = choose|j: int| 0 <= j < rects.len() && covers(#[trigger] rects[j], x, y);
        laws::law_clip_is_the_intersection(s.width, s.height, tx, ty, rects[j], x, y);
        assert(rects[j] == rects[j]);
    }
}

/// What painting one more tile does, whatever its pixels are. A byte of the framebuffer, where rows
/// do not overlap: if its pixel belongs to the tile, to the surface and to a rectangle of the
/// tile's region, and fits the framebuffer, it takes the tile's color there, and else it stays.
/// What each rectangle shows of the tile is recorded, in order, behind what was recorded before. A
/// tile that seems black is counted, and the first is noted. Nothing else changes.
pub proof fn law_tiles_are_painted_in_turn(
    s: Surface,
    blocks: Seq<ProgressiveBlock>,
    shown: Seq<Shown>,
    t: Shown,
    region: ProgressiveRegion,
    pixels: Seq<Vec<u8>>,
    stride: int,
    dst: Seq<u8>,
    u: Summary,
    x: int,
    y: int,
    n: int,
)
    requires
        blocks[t.block] == ProgressiveBlock::Region(region),
        4 * s.width <= stride,
        0 <= x,
        0 <= y,
        0 <= n < 4,
        4 * x + n < stride,
        y * stride + 4 * x + n < dst.len(),
    ensures
        ({
            let (before, p) = decoder::paint_from(
                s,
                blocks,
                shown,
                pixels,
                stride,
                dst,
                u,
                0,
            );
            let (after, q) = decoder::paint_from(
                s,
                blocks,
                shown.push(t),
                pixels,
                stride,
                dst,
                u,
                0,
            );
            let rgba = pixels[shown.len() as int]@;
            let at = y * stride + 4 * x;
            &&& before.len() == dst.len()
            &&& after.len() == dst.len()
            &&& after[at + n] == if is_painted(s, region.rects@, t.x_idx, t.y_idx, x, y) && at + 4
                <= dst.len() {
                rgba[4 * (64 * (y - 64 * t.y_idx) + (x - 64 * t.x_idx)) + n]
            } else {
                before[at + n]
            }
            &&& q.dirty == p.dirty + laws::clips(
                s.width as int,
                s.height as int,
                64 * t.x_idx,
                64 * t.y_idx,
                region.rects@,
                0,
            )
            &&& q.black_tiles == p.black_tiles + if seems_black(rgba) {
                1int
            } else {
                0
            }
            &&& q.first_black == if seems_black(rgba) && p.first_black is None {
                Some((t.x_idx, t.y_idx))
            } else {
                p.first_black
            }
            &&& q.tiles_simple == p.tiles_simple
            &&& q.tiles_first == p.tiles_first
            &&& q.tiles_upgrade == p.tiles_upgrade
            &&& q.regions == p.regions
            &&& q.region0_rects == p.region0_rects
            &&& q.extrapolate == p.extrapolate
            &&& q.coeff_diff_tiles == p.coeff_diff_tiles
            &&& q.errors == p.errors
            &&& q.first_error == p.first_error
        }),
{
    let (before, p) = decoder::paint_from(s, blocks, shown, pixels, stride, dst, u, 0);
    let rgba = pixels[shown.len() as int]@;
    order::lemma_paint_push(s, blocks, shown, t, pixels, stride, dst, u, 0);
    lemma_paint_keeps_len(s, blocks, shown, pixels, stride, dst, u, 0);
    lemma_blit_keeps_len(
        before,
        p.dirty,
        stride,
        rgba,
        s.width as int,
        s.height as int,
        64 * t.x_idx,
        64 * t.y_idx,
        region.rects@,
        0,
    );
    lemma_black(rgba);
    lemma_visible(s, region.rects@, t.x_idx, t.y_idx, x, y);
    laws::law_painted_rectangles_are_recorded(
        before,
        p.dirty,
        stride,
        rgba,
        s.width as int,
        s.height as int,
        64 * t.x_idx,
        64 * t.y_idx,
        region.rects@,
        0,
    );
    laws::law_painting_sets_what_is_visible(
        before,
        p.dirty,
        stride,
        rgba,
        s.width,
        s.height,
        64 * t.x_idx,
        64 * t.y_idx,
        region.rects@,
        0,
        x,
        y,
        n,
    );
}

/// Before any tile has been painted, nothing has changed.
pub proof fn law_painting_no_tile_changes_nothing(
    s: Surface,
    blocks: Seq<ProgressiveBlock>,
    pixels: Seq<Vec<u8>>,
    stride: int,
    dst: Seq<u8>,
    u: Summary,
)
    ensures
        decoder::paint_from(s, blocks, Seq::empty(), pixels, stride, dst, u, 0) == (dst, u),
{
}

proof fn lemma_row_keeps_len(
    dst: Seq<u8>,
    stride: int,
    rgba: Seq<u8>,
    tx: int,
    ty: int,
    y: int,
    x: int,
    end: int,
)
    ensures
        blit::blit_row(dst, stride, rgba, tx, ty, y, x, end).len() == dst.len(),
    decreases end - x,
{
    if x < end {
        let from = 4 * ((y - ty) * 64 + (x - tx));
        lemma_row_keeps_len(
            blit::set_rgba(dst, y * stride + 4 * x, rgba, from),
            stride,
            rgba,
            tx,
            ty,
            y,
            x + 1,
            end,
        );
    }
}

proof fn lemma_rows_keep_len(
    dst: Seq<u8>,
    stride: int,
    rgba: Seq<u8>,
    tx: int,
    ty: int,
    r: blit::InclusiveRectangle,
    y: int,
)
    ensures
        blit::blit_rows(dst, stride, rgba, tx, ty, r, y).len() == dst.len(),
    decreases r.bottom + 1 - y,
{
    if y <= r.bottom {
        let next = blit::blit_row(dst, stride, rgba, tx, ty, y, r.left as int, r.right + 1);
        lemma_row_keeps_len(dst, stride, rgba, tx, ty, y, r.left as int, r.right + 1);
        lemma_rows_keep_len(next, stride, rgba, tx, ty, r, y + 1);
    }
}

proof fn lemma_blit_keeps_len(
    dst: Seq<u8>,
    dirty: Seq<blit::InclusiveRectangle>,
    stride: int,
    rgba: Seq<u8>,
    w: int,
    h: int,
    tx: int,
    ty: int,
    rects: Seq<RfxRectangle>,
    i: int,
)
    ensures
        blit::blit(dst, dirty, stride, rgba, w, h, tx, ty, rects, i).0.len() == dst.len(),
    decreases rects.len() - i,
{
    if i < rects.len() {
        match blit::clip(w, h, tx, ty, rects[i]) {
            None => {
                lemma_blit_keeps_len(dst, dirty, stride, rgba, w, h, tx, ty, rects, i + 1);
            },
            Some(r) => {
                lemma_rows_keep_len(dst, stride, rgba, tx, ty, r, r.top as int);
                lemma_blit_keeps_len(
                    blit::blit_rows(dst, stride, rgba, tx, ty, r, r.top as int),
                    dirty.push(r),
                    stride,
                    rgba,
                    w,
                    h,
                    tx,
                    ty,
                    rects,
                    i + 1,
                );
            },
        }
    }
}

proof fn lemma_paint_keeps_len(
    s: Surface,
    blocks: Seq<ProgressiveBlock>,
    shown: Seq<Shown>,
    pixels: Seq<Vec<u8>>,
    stride: int,
    dst: Seq<u8>,
    u: Summary,
    i: int,
)
    ensures
        decoder::paint_from(s, blocks, shown, pixels, stride, dst, u, i).0.len() == dst.len(),
    decreases shown.len() - i,
{
    if i < shown.len() {
        let t = shown[i];
        let rects = decoder::rects_of(blocks[t.block]);
        let (painted, next) = decoder::paint_step(
            s,
            rects,
            t.x_idx,
            t.y_idx,
            pixels[i]@,
            stride,
            dst,
            u,
        );
        lemma_blit_keeps_len(
            dst,
            u.dirty,
            stride,
            pixels[i]@,
            s.width as int,
            s.height as int,
            64 * t.x_idx,
            64 * t.y_idx,
            rects,
            0,
        );
        lemma_paint_keeps_len(s, blocks, shown, pixels, stride, painted, next, i + 1);
    }
}

/// Byte `at` of a framebuffer of `len` bytes is one of the four of pixel `(x, y)`, all of which are
/// there.
pub open spec fn is_byte_of(stride: int, len: int, x: int, y: int, at: int) -> bool {
    y * stride + 4 * x <= at < y * stride + 4 * x + 4 <= len
}

/// What the tile at `(tx, ty)` has for byte `at`, as one of pixel `(x, y)`.
pub open spec fn tile_byte(
    rgba: Seq<u8>,
    tx: int,
    ty: int,
    stride: int,
    x: int,
    y: int,
    at: int,
) -> u8 {
    rgba[4 * (64 * (y - ty) + (x - tx)) + (at - (y * stride + 4 * x))]
}

proof fn lemma_row_byte(
    dst: Seq<u8>,
    stride: int,
    rgba: Seq<u8>,
    tx: int,
    ty: int,
    y: int,
    x: int,
    end: int,
    at: int,
    v: u8,
)
    requires
        0 <= at < dst.len(),
        forall|k: int|
            x <= k < end && #[trigger] is_byte_of(stride, dst.len() as int, k, y, at) ==> tile_byte(
                rgba,
                tx,
                ty,
                stride,
                k,
                y,
                at,
            ) == v,
    ensures
        blit::blit_row(dst, stride, rgba, tx, ty, y, x, end)[at] == if exists|k: int|
            x <= k < end && #[trigger] is_byte_of(stride, dst.len() as int, k, y, at) {
            v
        } else {
            dst[at]
        },
    decreases end - x,
{
    if x < end {
        let len = dst.len() as int;
        let from = 4 * ((y - ty) * 64 + (x - tx));
        let next = blit::set_rgba(dst, y * stride + 4 * x, rgba, from);
        lemma_row_byte(next, stride, rgba, tx, ty, y, x + 1, end, at, v);
        let here = is_byte_of(stride, len, x, y, at);
        assert(here ==> tile_byte(rgba, tx, ty, stride, x, y, at) == v);
        let later = exists|k: int| x + 1 <= k < end && #[trigger] is_byte_of(stride, len, k, y, at);
        let any = exists|k: int| x <= k < end && #[trigger] is_byte_of(stride, len, k, y, at);
        assert(any == (here || later)) by {
            if later {
                let k = choose|k: int|
                    x + 1 <= k < end && #[trigger] is_byte_of(stride, len, k, y, at);
                assert(x <= k < end && is_byte_of(stride, len, k, y, at));
            }
        }
    }
}

/// A pixel of a rectangle, from row `row` on, has byte `at`.
spec fn has_byte(
    r: blit::InclusiveRectangle,
    row: int,
    stride: int,
    len: int,
    x: int,
    y: int,
    at: int,
) -> bool {
    r.left <= x <= r.right && row <= y <= r.bottom && is_byte_of(stride, len, x, y, at)
}

proof fn lemma_rows_byte(
    dst: Seq<u8>,
    stride: int,
    rgba: Seq<u8>,
    tx: int,
    ty: int,
    r: blit::InclusiveRectangle,
    row: int,
    at: int,
    v: u8,
)
    requires
        0 <= at < dst.len(),
        forall|x: int, y: int|
            #[trigger] has_byte(r, row, stride, dst.len() as int, x, y, at) ==> tile_byte(
                rgba,
                tx,
                ty,
                stride,
                x,
                y,
                at,
            ) == v,
    ensures
        blit::blit_rows(dst, stride, rgba, tx, ty, r, row)[at] == if exists|x: int, y: int|
            #[trigger] has_byte(r, row, stride, dst.len() as int, x, y, at) {
            v
        } else {
            dst[at]
        },
    decreases r.bottom + 1 - row,
{
    let len = dst.len() as int;
    if row <= r.bottom {
        let left = r.left as int;
        let end = r.right + 1;
        assert forall|k: int|
            left <= k < end && #[trigger] is_byte_of(stride, len, k, row, at) implies tile_byte(
            rgba,
            tx,
            ty,
            stride,
            k,
            row,
            at,
        ) == v by {
            assert(has_byte(r, row, stride, len, k, row, at));
        }
        lemma_row_byte(dst, stride, rgba, tx, ty, row, left, end, at, v);
        lemma_row_keeps_len(dst, stride, rgba, tx, ty, row, left, end);
        let next = blit::blit_row(dst, stride, rgba, tx, ty, row, left, end);
        assert forall|x: int, y: int|
            #[trigger] has_byte(r, row + 1, stride, len, x, y, at) implies tile_byte(
            rgba,
            tx,
            ty,
            stride,
            x,
            y,
            at,
        ) == v by {
            assert(has_byte(r, row, stride, len, x, y, at));
        }
        lemma_rows_byte(next, stride, rgba, tx, ty, r, row + 1, at, v);
        let here = exists|k: int|
            left <= k < end && #[trigger] is_byte_of(stride, len, k, row, at);
        let later = exists|x: int, y: int|
            #[trigger] has_byte(r, row + 1, stride, len, x, y, at);
        let any = exists|x: int, y: int| #[trigger] has_byte(r, row, stride, len, x, y, at);
        assert(any == (here || later)) by {
            if here {
                let k = choose|k: int|
                    left <= k < end && #[trigger] is_byte_of(stride, len, k, row, at);
                assert(has_byte(r, row, stride, len, k, row, at));
            }
            if later {
                let (x, y) = choose|x: int, y: int|
                    #[trigger] has_byte(r, row + 1, stride, len, x, y, at);
                assert(has_byte(r, row, stride, len, x, y, at));
            }
            if any {
                let (x, y) = choose|x: int, y: int|
                    #[trigger] has_byte(r, row, stride, len, x, y, at);
                if y == row {
                    assert(left <= x < end && is_byte_of(stride, len, x, row, at));
                } else {
                    assert(has_byte(r, row + 1, stride, len, x, y, at));
                }
            }
        }
    } else {
        assert forall|x: int, y: int| !#[trigger] has_byte(r, row, stride, len, x, y, at) by {}
    }
}

/// One of the rectangles from `i` on shows a pixel of the tile that has byte `at`.
spec fn shows_byte(
    w: int,
    h: int,
    tx: int,
    ty: int,
    rects: Seq<RfxRectangle>,
    i: int,
    stride: int,
    len: int,
    x: int,
    y: int,
    at: int,
) -> bool {
    laws::visible(w, h, tx, ty, rects, i, x, y) && is_byte_of(stride, len, x, y, at)
}

proof fn lemma_blit_byte(
    dst: Seq<u8>,
    dirty: Seq<blit::InclusiveRectangle>,
    stride: int,
    rgba: Seq<u8>,
    w: int,
    h: int,
    tx: int,
    ty: int,
    rects: Seq<RfxRectangle>,
    i: int,
    at: int,
    v: u8,
)
    requires
        0 <= i,
        0 <= at < dst.len(),
        forall|x: int, y: int|
            #[trigger] shows_byte(
                w,
                h,
                tx,
                ty,
                rects,
                i,
                stride,
                dst.len() as int,
                x,
                y,
                at,
            ) ==> tile_byte(rgba, tx, ty, stride, x, y, at) == v,
    ensures
        blit::blit(dst, dirty, stride, rgba, w, h, tx, ty, rects, i).0[at] == if exists|
            x: int,
            y: int,
        |
            #[trigger] shows_byte(
                w,
                h,
                tx,
                ty,
                rects,
                i,
                stride,
                dst.len() as int,
                x,
                y,
                at,
            ) {
            v
        } else {
            dst[at]
        },
    decreases rects.len() - i,
{
    let len = dst.len() as int;
    if i < rects.len() {
        let c = blit::clip(w, h, tx, ty, rects[i]);
        assert forall|x: int, y: int| laws::visible(w, h, tx, ty, rects, i, x, y) == ((c matches
            Some(r) && laws::inside(r, x, y)) || #[trigger] laws::visible(
            w,
            h,
            tx,
            ty,
            rects,
            i + 1,
            x,
            y,
        )) by {
            lemma_visible_from(w, h, tx, ty, rects, i, x, y);
        }
        assert forall|x: int, y: int|
            #[trigger] shows_byte(w, h, tx, ty, rects, i + 1, stride, len, x, y, at) implies
            tile_byte(rgba, tx, ty, stride, x, y, at) == v by {
            assert(shows_byte(w, h, tx, ty, rects, i, stride, len, x, y, at));
        }
        let later = exists|x: int, y: int|
            #[trigger] shows_byte(w, h, tx, ty, rects, i + 1, stride, len, x, y, at);
        let any = exists|x: int, y: int|
            #[trigger] shows_byte(w, h, tx, ty, rects, i, stride, len, x, y, at);
        if later {
            let (x, y) = choose|x: int, y: int|
                #[trigger] shows_byte(w, h, tx, ty, rects, i + 1, stride, len, x, y, at);
            assert(shows_byte(w, h, tx, ty, rects, i, stride, len, x, y, at));
        }
        match c {
            None => {
                lemma_blit_byte(
                    dst,
                    dirty,
                    stride,
                    rgba,
                    w,
                    h,
                    tx,
                    ty,
                    rects,
                    i + 1,
                    at,
                    v,
                );
                if any {
                    let (x, y) = choose|x: int, y: int|
                        #[trigger] shows_byte(w, h, tx, ty, rects, i, stride, len, x, y, at);
                    assert(laws::visible(w, h, tx, ty, rects, i + 1, x, y));
                    assert(shows_byte(w, h, tx, ty, rects, i + 1, stride, len, x, y, at));
                }
            },
            Some(r) => {
                let top = r.top as int;
                assert forall|x: int, y: int|
                    #[trigger] has_byte(r, top, stride, len, x, y, at) implies tile_byte(
                    rgba,
                    tx,
                    ty,
                    stride,
                    x,
                    y,
                    at,
                ) == v by {
                    assert(laws::inside(r, x, y));
                    lemma_visible_from(w, h, tx, ty, rects, i, x, y);
                    assert(shows_byte(w, h, tx, ty, rects, i, stride, len, x, y, at));
                }
                lemma_rows_byte(dst, stride, rgba, tx, ty, r, top, at, v);
                lemma_rows_keep_len(dst, stride, rgba, tx, ty, r, top);
                let next = blit::blit_rows(dst, stride, rgba, tx, ty, r, top);
                lemma_blit_byte(
                    next,
                    dirty.push(r),
                    stride,
                    rgba,
                    w,
                    h,
                    tx,
                    ty,
                    rects,
                    i + 1,
                    at,
                    v,
                );
                let here = exists|x: int, y: int|
                    #[trigger] has_byte(r, top, stride, len, x, y, at);
                if here {
                    let (x, y) = choose|x: int, y: int|
                        #[trigger] has_byte(r, top, stride, len, x, y, at);
                    assert(laws::inside(r, x, y));
                    lemma_visible_from(w, h, tx, ty, rects, i, x, y);
                    assert(shows_byte(w, h, tx, ty, rects, i, stride, len, x, y, at));
                }
                if any && !later {
                    let (x, y) = choose|x: int, y: int|
                        #[trigger] shows_byte(w, h, tx, ty, rects, i, stride, len, x, y, at);
                    lemma_visible_from(w, h, tx, ty, rects, i, x, y);
                    assert(!shows_byte(w, h, tx, ty, rects, i + 1, stride, len, x, y, at));
                    assert(has_byte(r, top, stride, len, x, y, at));
                }
            },
        }
    } else {
        assert forall|x: int, y: int|
            !#[trigger] shows_byte(w, h, tx, ty, rects, i, stride, len, x, y, at) by {}
    }
}

proof fn lemma_visible_from(
    w: int,
    h: int,
    tx: int,
    ty: int,
    rects: Seq<RfxRectangle>,
    i: int,
    x: int,
    y: int,
)
    requires
        0 <= i < rects.len(),
    ensures
        laws::visible(w, h, tx, ty, rects, i, x, y) == ((blit::clip(
            w,
            h,
            tx,
            ty,
            rects[i],
        ) matches Some(r) && laws::inside(r, x, y)) || laws::visible(
            w,
            h,
            tx,
            ty,
            rects,
            i + 1,
            x,
            y,
        )),
{
    if laws::visible(w, h, tx, ty, rects, i + 1, x, y) {
        let j = choose|j: int|
            i + 1 <= j < rects.len() && (blit::clip(w, h, tx, ty, #[trigger] rects[j]) matches
                Some(c) && laws::inside(c, x, y));
        assert(i <= j < rects.len());
    }
    if laws::visible(w, h, tx, ty, rects, i, x, y) {
        let j = choose|j: int|
            i <= j < rects.len() && (blit::clip(w, h, tx, ty, #[trigger] rects[j]) matches Some(
                c,
            ) && laws::inside(c, x, y));
        if j > i {
            assert(i + 1 <= j);
        }
    }
}

/// Whatever the distance between rows is: a byte of the framebuffer that belongs to no painted
/// pixel stays, and one for which every painted pixel that it belongs to has the same value takes
/// that value.
pub proof fn law_painted_bytes_take_their_values(
    s: Surface,
    blocks: Seq<ProgressiveBlock>,
    shown: Seq<Shown>,
    t: Shown,
    region: ProgressiveRegion,
    pixels: Seq<Vec<u8>>,
    stride: int,
    dst: Seq<u8>,
    u: Summary,
    at: int,
    v: u8,
)
    requires
        blocks[t.block] == ProgressiveBlock::Region(region),
        0 <= at < dst.len(),
        forall|x: int, y: int|
            is_painted(s, region.rects@, t.x_idx, t.y_idx, x, y) && #[trigger] is_byte_of(
                stride,
                dst.len() as int,
                x,
                y,
                at,
            ) ==> tile_byte(
                pixels[shown.len() as int]@,
                64 * t.x_idx,
                64 * t.y_idx,
                stride,
                x,
                y,
                at,
            ) == v,
    ensures
        ({
            let before = decoder::paint_from(s, blocks, shown, pixels, stride, dst, u, 0).0;
            let more = shown.push(t);
            let after = decoder::paint_from(s, blocks, more, pixels, stride, dst, u, 0).0;
            after[at] == if exists|x: int, y: int|
                is_painted(s, region.rects@, t.x_idx, t.y_idx, x, y) && #[trigger] is_byte_of(
                    stride,
                    dst.len() as int,
                    x,
                    y,
                    at,
                ) {
                v
            } else {
                before[at]
            }
        }),
{
    let (before, p) = decoder::paint_from(s, blocks, shown, pixels, stride, dst, u, 0);
    let rgba = pixels[shown.len() as int]@;
    let tx = 64 * t.x_idx;
    let ty = 64 * t.y_idx;
    let w = s.width as int;
    let h = s.height as int;
    let rects = region.rects@;
    let len = dst.len() as int;
    order::lemma_paint_push(s, blocks, shown, t, pixels, stride, dst, u, 0);
    lemma_paint_keeps_len(s, blocks, shown, pixels, stride, dst, u, 0);
    assert forall|x: int, y: int|
        #[trigger] shows_byte(w, h, tx, ty, rects, 0, stride, len, x, y, at) == (is_painted(
            s,
            rects,
            t.x_idx,
            t.y_idx,
            x,
            y,
        ) && is_byte_of(stride, len, x, y, at)) by {
        lemma_visible(s, rects, t.x_idx, t.y_idx, x, y);
    }
    lemma_blit_byte(before, p.dirty, stride, rgba, w, h, tx, ty, rects, 0, at, v);
    let any = exists|x: int, y: int|
        is_painted(s, rects, t.x_idx, t.y_idx, x, y) && #[trigger] is_byte_of(
            stride,
            len,
            x,
            y,
            at,
        );
    if any {
        let (x, y) = choose|x: int, y: int|
            is_painted(s, rects, t.x_idx, t.y_idx, x, y) && #[trigger] is_byte_of(
                stride,
                len,
                x,
                y,
                at,
            );
        assert(shows_byte(w, h, tx, ty, rects, 0, stride, len, x, y, at));
    }
}

} // verus!
