//! Pixels in RGBA buffers.
//!
//! Every layer of a composition paints a list of colors into a rectangle of the destination, row
//! by row from its top left corner. A run over the whole destination and a single column are
//! rectangles too.

use vstd::arithmetic::div_mod::*;
use vstd::arithmetic::mul::*;
use vstd::prelude::*;

verus! {

/// An opaque color.
pub open spec fn rgba(red: u8, green: u8, blue: u8) -> Seq<u8> {
    seq![red, green, blue, 0xFF]
}

/// The buffer with pixel `k` set to `color`.
pub open spec fn put_pixel(out: Seq<u8>, k: int, color: Seq<u8>) -> Seq<u8> {
    Seq::new(
        out.len(),
        |i: int|
            if 4 * k <= i < 4 * k + 4 {
                color[i - 4 * k]
            } else {
                out[i]
            },
    )
}

/// Where the `k`-th pixel lies of a rectangle that is `cols` pixels wide and has its corner at
/// `(x, y)`, in a buffer of `w` pixels per row.
pub open spec fn place(w: int, x: int, y: int, cols: int, k: int) -> int {
    (y + k / cols) * w + x + k % cols
}

/// The buffer after `colors` have been painted, in order, into the rectangle that is `cols` pixels
/// wide and has its corner at `(x, y)`.
pub open spec fn paint(
    out: Seq<u8>,
    w: int,
    x: int,
    y: int,
    cols: int,
    colors: Seq<Seq<u8>>,
) -> Seq<u8>
    decreases colors.len(),
{
    if colors.len() == 0 {
        out
    } else {
        put_pixel(
            paint(out, w, x, y, cols, colors.drop_last()),
            place(w, x, y, cols, colors.len() - 1),
            colors.last(),
        )
    }
}

/// A color repeated `n` times.
pub open spec fn repeated(color: Seq<u8>, n: int) -> Seq<Seq<u8>> {
    Seq::new(n as nat, |i: int| color)
}

/// BGR triplets as RGBA pixels.
pub open spec fn bgr_to_rgba(raw: Seq<u8>) -> Seq<Seq<u8>> {
    Seq::new(raw.len() / 3, |i: int| rgba(raw[3 * i + 2], raw[3 * i + 1], raw[3 * i]))
}

/// A pixel column of flat RGBA bytes as colors.
pub open spec fn pixels(flat: Seq<u8>) -> Seq<Seq<u8>> {
    Seq::new(flat.len() / 4, |i: int| flat.subrange(4 * i, 4 * i + 4))
}

/// Sets pixel `k`.
pub fn set_pixel(out: &mut [u8], k: usize, color: [u8; 4])
    requires
        4 * k + 4 <= old(out)@.len(),
    ensures
        final(out)@ == put_pixel(old(out)@, k as int, color@),
        final(out)@.len() == old(out)@.len(),
{
    let at: usize = 4 * k;
    out[at] = color[0];
    out[at + 1] = color[1];
    out[at + 2] = color[2];
    out[at + 3] = color[3];
    assert(out@ =~= put_pixel(old(out)@, k as int, color@));
}

/// Sets the pixel of a rectangle that lies in its column `*x` and row `*y`, and moves on to the
/// next one.
pub fn put(
    out: &mut [u8],
    w: usize,
    h: usize,
    x_start: usize,
    y_start: usize,
    cols: usize,
    x: &mut usize,
    y: &mut usize,
    color: [u8; 4],
)
    requires
        w * h * 4 <= usize::MAX,
        old(out)@.len() == w * h * 4,
        x_start + cols <= w,
        *old(x) < cols,
        y_start + *old(y) < h,
    ensures
        final(out)@ == put_pixel(
            old(out)@,
            (y_start + *old(y)) * w + x_start + *old(x),
            color@,
        ),
        final(out)@.len() == old(out)@.len(),
        *old(x) + 1 < cols ==> *final(x) == *old(x) + 1 && *final(y) == *old(y),
        *old(x) + 1 == cols ==> *final(x) == 0 && *final(y) == *old(y) + 1,
{
    let ghost row = y_start + *y;
    proof {
        assert(0 <= row * w && row * w + w <= w * h) by (nonlinear_arith)
            requires
                0 <= row < h,
                0 <= w,
        ;
    }
    let at: usize = (y_start + *y) * w + (x_start + *x);
    set_pixel(out, at, color);
    *x = *x + 1;
    if *x >= cols {
        *x = 0;
        *y = *y + 1;
    }
}

/// The column and row of the pixel after the `k`-th.
pub proof fn lemma_next_pixel(k: int, cols: int)
    requires
        0 <= k,
        0 < cols,
    ensures
        0 <= k % cols < cols,
        0 <= k / cols,
        k % cols + 1 < cols ==> (k + 1) % cols == k % cols + 1 && (k + 1) / cols == k / cols,
        k % cols + 1 == cols ==> (k + 1) % cols == 0 && (k + 1) / cols == k / cols + 1,
{
    lemma_fundamental_div_mod(k, cols);
    lemma_div_pos_is_pos(k, cols);
    let q = k / cols;
    lemma_mul_is_commutative(cols, q);
    if k % cols + 1 < cols {
        lemma_fundamental_div_mod_converse(k + 1, cols, q, k % cols + 1);
    } else {
        assert(k + 1 == (q + 1) * cols) by (nonlinear_arith)
            requires
                k == cols * q + (cols - 1),
        ;
        lemma_fundamental_div_mod_converse(k + 1, cols, q + 1, 0);
    }
}

/// Painting keeps the size of the buffer.
pub proof fn lemma_paint_len(
    out: Seq<u8>,
    w: int,
    x: int,
    y: int,
    cols: int,
    colors: Seq<Seq<u8>>,
)
    ensures
        paint(out, w, x, y, cols, colors).len() == out.len(),
    decreases colors.len(),
{
    if colors.len() > 0 {
        lemma_paint_len(out, w, x, y, cols, colors.drop_last());
    }
}

/// Painting one more color sets one more pixel.
pub proof fn lemma_paint_push(
    out: Seq<u8>,
    w: int,
    x: int,
    y: int,
    cols: int,
    colors: Seq<Seq<u8>>,
    color: Seq<u8>,
)
    ensures
        paint(out, w, x, y, cols, colors.push(color)) == put_pixel(
            paint(out, w, x, y, cols, colors),
            place(w, x, y, cols, colors.len() as int),
            color,
        ),
{
    assert(colors.push(color).drop_last() =~= colors);
}

/// A pixel of a rectangle inside the destination lies inside the buffer.
pub proof fn lemma_place_inside(
    w: int,
    h: int,
    x: int,
    y: int,
    cols: int,
    rows: int,
    k: int,
)
    requires
        0 <= x,
        0 <= y,
        0 <= cols,
        x + cols <= w,
        y + rows <= h,
        0 <= k < cols * rows,
    ensures
        0 < cols,
        0 <= k / cols < rows,
        0 <= k % cols < cols,
        0 <= place(w, x, y, cols, k) < w * h,
        place(w, x, y, cols, k) == (y + k / cols) * w + (x + k % cols),
{
    assert(0 < cols) by (nonlinear_arith)
        requires
            0 <= cols,
            0 < cols * rows,
    ;
    lemma_fundamental_div_mod(k, cols);
    assert(0 <= k / cols < rows) by (nonlinear_arith)
        requires
            0 <= k < cols * rows,
            0 < cols,
            k == cols * (k / cols) + k % cols,
            0 <= k % cols < cols,
    ;
    let row = y + k / cols;
    assert(0 <= row * w && row * w + w <= w * h) by (nonlinear_arith)
        requires
            0 <= row < h,
            0 <= w,
    ;
}

/// What painting one more color into a rectangle inside the destination does, and where the pixel
/// after it lies.
pub proof fn lemma_paint_next(
    out: Seq<u8>,
    w: int,
    h: int,
    x: int,
    y: int,
    cols: int,
    rows: int,
    colors: Seq<Seq<u8>>,
    color: Seq<u8>,
)
    requires
        0 <= x,
        0 <= y,
        0 <= cols,
        x + cols <= w,
        y + rows <= h,
        colors.len() < cols * rows,
    ensures
        paint(out, w, x, y, cols, colors.push(color)) == put_pixel(
            paint(out, w, x, y, cols, colors),
            (y + colors.len() as int / cols) * w + x + colors.len() as int % cols,
            color,
        ),
        0 < cols,
        0 <= colors.len() as int / cols < rows,
        0 <= colors.len() as int % cols < cols,
        colors.len() as int % cols + 1 < cols ==> {
            &&& (colors.len() as int + 1) % cols == colors.len() as int % cols + 1
            &&& (colors.len() as int + 1) / cols == colors.len() as int / cols
        },
        colors.len() as int % cols + 1 == cols ==> {
            &&& (colors.len() as int + 1) % cols == 0
            &&& (colors.len() as int + 1) / cols == colors.len() as int / cols + 1
        },
{
    let k = colors.len() as int;
    lemma_place_inside(w, h, x, y, cols, rows, k);
    lemma_next_pixel(k, cols);
    lemma_paint_push(out, w, x, y, cols, colors, color);
}

} // verus!
