//! Tiles on a framebuffer.

use crate::rfx_progressive::layout::{TILE_RGBA, TILE_SIZE};
use crate::rfx_progressive::stream::RfxRectangle;
use vstd::prelude::*;

verus! {

/// A rectangle that holds its right and bottom edges.
#[derive(Clone, Copy, Debug, PartialEq, Eq, Structural)]
pub struct InclusiveRectangle {
    pub left: u16,
    pub top: u16,
    pub right: u16,
    pub bottom: u16,
}

/// The greater of two numbers.
pub open spec fn greater(a: int, b: int) -> int {
    if a >= b {
        a
    } else {
        b
    }
}

/// The lesser of two numbers.
pub open spec fn lesser(a: int, b: int) -> int {
    if a <= b {
        a
    } else {
        b
    }
}

/// What a surface of `w` by `h` pixels shows of the tile at `(tx, ty)` through a rectangle, if it
/// shows anything.
pub open spec fn clip(w: int, h: int, tx: int, ty: int, r: RfxRectangle) -> Option<
    InclusiveRectangle,
> {
    let x0 = greater(tx, r.x as int);
    let y0 = greater(ty, r.y as int);
    let x1 = lesser(lesser(tx + TILE_SIZE, r.x + r.width), w);
    let y1 = lesser(lesser(ty + TILE_SIZE, r.y + r.height), h);
    if x1 <= x0 || y1 <= y0 {
        None
    } else {
        Some(
            InclusiveRectangle {
                left: x0 as u16,
                top: y0 as u16,
                right: (x1 - 1) as u16,
                bottom: (y1 - 1) as u16,
            },
        )
    }
}

/// The framebuffer with the four bytes at `at` set to those at `from` of a tile. A pixel that does
/// not fit is left out.
pub open spec fn set_rgba(dst: Seq<u8>, at: int, rgba: Seq<u8>, from: int) -> Seq<u8> {
    if at + 4 <= dst.len() {
        Seq::new(
            dst.len(),
            |i: int|
                if at <= i < at + 4 {
                    rgba[from + i - at]
                } else {
                    dst[i]
                },
        )
    } else {
        dst
    }
}

/// The framebuffer after the pixels from `x` to `end` of row `y` have been set.
pub open spec fn blit_row(
    dst: Seq<u8>,
    stride: int,
    rgba: Seq<u8>,
    tx: int,
    ty: int,
    y: int,
    x: int,
    end: int,
) -> Seq<u8>
    decreases end - x,
{
    if x >= end {
        dst
    } else {
        blit_row(
            set_rgba(dst, y * stride + 4 * x, rgba, 4 * ((y - ty) * TILE_SIZE + (x - tx))),
            stride,
            rgba,
            tx,
            ty,
            y,
            x + 1,
            end,
        )
    }
}

/// The framebuffer after the rows from `y` on of a rectangle have been set.
pub open spec fn blit_rows(
    dst: Seq<u8>,
    stride: int,
    rgba: Seq<u8>,
    tx: int,
    ty: int,
    r: InclusiveRectangle,
    y: int,
) -> Seq<u8>
    decreases r.bottom + 1 - y,
{
    if y > r.bottom {
        dst
    } else {
        blit_rows(
            blit_row(dst, stride, rgba, tx, ty, y, r.left as int, r.right + 1),
            stride,
            rgba,
            tx,
            ty,
            r,
            y + 1,
        )
    }
}

/// The framebuffer and the list of painted rectangles after a tile has been painted through the
/// rectangles from `i` on.
pub open spec fn blit(
    dst: Seq<u8>,
    dirty: Seq<InclusiveRectangle>,
    stride: int,
    rgba: Seq<u8>,
    w: int,
    h: int,
    tx: int,
    ty: int,
    rects: Seq<RfxRectangle>,
    i: int,
) -> (Seq<u8>, Seq<InclusiveRectangle>)
    decreases rects.len() - i,
{
    if i >= rects.len() {
        (dst, dirty)
    } else {
        match clip(w, h, tx, ty, rects[i]) {
            None => blit(dst, dirty, stride, rgba, w, h, tx, ty, rects, i + 1),
            Some(r) => blit(
                blit_rows(dst, stride, rgba, tx, ty, r, r.top as int),
                dirty.push(r),
                stride,
                rgba,
                w,
                h,
                tx,
                ty,
                rects,
                i + 1,
            ),
        }
    }
}

/// A pixel of a tile is black or nearly so.
pub open spec fn dark(rgba: Seq<u8>, x: int, y: int) -> bool {
    let o = 4 * (y * TILE_SIZE + x);
    rgba[o] <= 10 && rgba[o + 1] <= 10 && rgba[o + 2] <= 10
}

/// The pixels of a tile are dark at nine places: where three columns and three rows cross.
pub open spec fn looks_black(rgba: Seq<u8>) -> bool {
    &&& dark(rgba, 4, 4) && dark(rgba, 32, 4) && dark(rgba, 60, 4)
    &&& dark(rgba, 4, 32) && dark(rgba, 32, 32) && dark(rgba, 60, 32)
    &&& dark(rgba, 4, 60) && dark(rgba, 32, 60) && dark(rgba, 60, 60)
}

fn is_dark(rgba: &[u8], x: usize, y: usize) -> (r: bool)
    requires
        rgba@.len() == TILE_RGBA,
        x < TILE_SIZE,
        y < TILE_SIZE,
    ensures
        r == dark(rgba@, x as int, y as int),
{
    let o: usize = (y * TILE_SIZE + x) * 4;
    rgba[o] <= 10 && rgba[o + 1] <= 10 && rgba[o + 2] <= 10
}

/// Returns whether a tile looks black.
pub fn tile_is_black(rgba: &[u8]) -> (r: bool)
    requires
        rgba@.len() == TILE_RGBA,
    ensures
        r == looks_black(rgba@),
{
    is_dark(rgba, 4, 4) && is_dark(rgba, 32, 4) && is_dark(rgba, 60, 4) && is_dark(rgba, 4, 32)
        && is_dark(rgba, 32, 32) && is_dark(rgba, 60, 32) && is_dark(rgba, 4, 60) && is_dark(
        rgba,
        32,
        60,
    ) && is_dark(rgba, 60, 60)
}

/// Computes what a surface shows of a tile through a rectangle.
pub fn clip_tile(width: u16, height: u16, tx: usize, ty: usize, r: &RfxRectangle) -> (res: Option<
    InclusiveRectangle,
>)
    requires
        tx <= 0x40_0000,
        ty <= 0x40_0000,
    ensures
        res == clip(width as int, height as int, tx as int, ty as int, *r),
        res matches Some(c) ==> {
            &&& tx <= c.left <= c.right < tx + TILE_SIZE
            &&& ty <= c.top <= c.bottom < ty + TILE_SIZE
        },
{
    let rx: usize = r.x as usize;
    let ry: usize = r.y as usize;
    let right: usize = rx + r.width as usize;
    let bottom: usize = ry + r.height as usize;
    let w: usize = width as usize;
    let h: usize = height as usize;
    let x0: usize = if tx >= rx {
        tx
    } else {
        rx
    };
    let y0: usize = if ty >= ry {
        ty
    } else {
        ry
    };
    let mut x1: usize = tx + TILE_SIZE;
    if right < x1 {
        x1 = right;
    }
    if w < x1 {
        x1 = w;
    }
    let mut y1: usize = ty + TILE_SIZE;
    if bottom < y1 {
        y1 = bottom;
    }
    if h < y1 {
        y1 = h;
    }
    if x1 <= x0 || y1 <= y0 {
        return None;
    }
    Some(
        InclusiveRectangle {
            left: x0 as u16,
            top: y0 as u16,
            right: (x1 - 1) as u16,
            bottom: (y1 - 1) as u16,
        },
    )
}

/// Sets the part of a row that a rectangle shows.
fn paint_row(
    dst: &mut [u8],
    stride: usize,
    rgba: &[u8],
    tx: usize,
    ty: usize,
    y: usize,
    left: usize,
    end: usize,
)
    requires
        rgba@.len() == TILE_RGBA,
        tx <= left <= end <= tx + TILE_SIZE,
        ty <= y < ty + TILE_SIZE,
        end <= 0x1_0000,
        y < 0x1_0000,
    ensures
        final(dst)@ == blit_row(
            old(dst)@,
            stride as int,
            rgba@,
            tx as int,
            ty as int,
            y as int,
            left as int,
            end as int,
        ),
        final(dst)@.len() == old(dst)@.len(),
{
    let ghost whole = blit_row(
        dst@,
        stride as int,
        rgba@,
        tx as int,
        ty as int,
        y as int,
        left as int,
        end as int,
    );
    assert(0 <= y * stride <= 0x1_0000 * 0xFFFF_FFFF_FFFF_FFFF) by (nonlinear_arith)
        requires
            0 <= y <= 0x1_0000,
            0 <= stride <= 0xFFFF_FFFF_FFFF_FFFF,
    ;
    let row: u128 = y as u128 * stride as u128;
    let mut x: usize = left;
    while x < end
        invariant
            rgba@.len() == TILE_RGBA,
            tx <= left <= x <= end <= tx + TILE_SIZE,
            ty <= y < ty + TILE_SIZE,
            end <= 0x1_0000,
            row == y * stride <= 0x1_0000 * 0xFFFF_FFFF_FFFF_FFFF,
            dst@.len() == old(dst)@.len(),
            whole == blit_row(
                dst@,
                stride as int,
                rgba@,
                tx as int,
                ty as int,
                y as int,
                x as int,
                end as int,
            ),
        decreases end - x,
    {
        let from: usize = ((y - ty) * TILE_SIZE + (x - tx)) * 4;
        let at: u128 = row + (x * 4) as u128;
        let ghost before = dst@;
        if at + 4 <= dst.len() as u128 {
            let o: usize = at as usize;
            dst[o] = rgba[from];
            dst[o + 1] = rgba[from + 1];
            dst[o + 2] = rgba[from + 2];
            dst[o + 3] = rgba[from + 3];
            assert(dst@ =~= set_rgba(before, at as int, rgba@, from as int));
        }
        x = x + 1;
    }
}

/// Paints the tile at `(tx, ty)` onto a surface, through the rectangles of its region. Records
/// each rectangle that it has painted.
pub fn blit_tile(
    width: u16,
    height: u16,
    rgba: &[u8],
    dst: &mut [u8],
    dst_stride: usize,
    tx: usize,
    ty: usize,
    rects: &Vec<RfxRectangle>,
    dirty: &mut Vec<InclusiveRectangle>,
)
    requires
        rgba@.len() == TILE_RGBA,
        tx <= 0x40_0000,
        ty <= 0x40_0000,
    ensures
        (final(dst)@, final(dirty)@) == blit(
            old(dst)@,
            old(dirty)@,
            dst_stride as int,
            rgba@,
            width as int,
            height as int,
            tx as int,
            ty as int,
            rects@,
            0,
        ),
        final(dst)@.len() == old(dst)@.len(),
{
    let ghost whole = blit(
        dst@,
        dirty@,
        dst_stride as int,
        rgba@,
        width as int,
        height as int,
        tx as int,
        ty as int,
        rects@,
        0,
    );
    let mut i: usize = 0;
    while i < rects.len()
        invariant
            rgba@.len() == TILE_RGBA,
            tx <= 0x40_0000,
            ty <= 0x40_0000,
            i <= rects@.len(),
            dst@.len() == old(dst)@.len(),
            whole == blit(
                dst@,
                dirty@,
                dst_stride as int,
                rgba@,
                width as int,
                height as int,
                tx as int,
                ty as int,
                rects@,
                i as int,
            ),
        decreases rects@.len() - i,
    {
        if let Some(r) = clip_tile(width, height, tx, ty, &rects[i]) {
            let bottom: usize = r.bottom as usize;
            let ghost painted = blit_rows(
                dst@,
                dst_stride as int,
                rgba@,
                tx as int,
                ty as int,
                r,
                r.top as int,
            );
            let mut y: usize = r.top as usize;
            while y <= bottom
                invariant
                    rgba@.len() == TILE_RGBA,
                    tx <= r.left <= r.right < tx + TILE_SIZE,
                    ty <= y,
                    bottom == r.bottom < ty + TILE_SIZE,
                    y <= bottom + 1,
                    dst@.len() == old(dst)@.len(),
                    painted == blit_rows(
                        dst@,
                        dst_stride as int,
                        rgba@,
                        tx as int,
                        ty as int,
                        r,
                        y as int,
                    ),
                decreases bottom + 1 - y,
            {
                paint_row(
                    dst,
                    dst_stride,
                    rgba,
                    tx,
                    ty,
                    y,
                    r.left as usize,
                    r.right as usize + 1,
                );
                y = y + 1;
            }
            dirty.push(r);
        }
        i = i + 1;
    }
}

} // verus!
