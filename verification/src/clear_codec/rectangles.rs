//! What the rectangles of a subcodec layer show.

use crate::bytes;
use crate::clear_codec::{laws, paint, residual, subcodec};
use vstd::arithmetic::div_mod::*;
use vstd::arithmetic::power2::*;
use vstd::prelude::*;

verus! {

/// Two bytes of `s` as a number, the lower one first.
pub open spec fn pair(s: Seq<u8>, i: int) -> int {
    s[i] + 0x100 * s[i + 1]
}

/// The layer is one rectangle: 13 bytes of header, of which the ninth to the twelfth count the
/// bytes that follow.
pub open spec fn is_single_rectangle(s: Seq<u8>) -> bool {
    &&& s.len() >= 13
    &&& s.len() - 13 == s[8] + 0x100 * s[9] + 0x1_0000 * s[10] + 0x100_0000 * s[11]
}

/// The rectangle, with its corner in the first four bytes and its size in the next four, lies in
/// the destination.
pub open spec fn lies_inside(s: Seq<u8>, w: int, h: int) -> bool {
    pair(s, 0) + pair(s, 4) <= w && pair(s, 2) + pair(s, 6) <= h
}

/// The colors of a rectangle, row by row, and whether all are there: raw pixels, blue first, or
/// palette runs.
pub open spec fn listed(s: Seq<u8>) -> (Seq<Seq<u8>>, bool) {
    let data = s.skip(13);
    if s[12] == 0 {
        (
            Seq::new(
                data.len() / 3,
                |k: int| seq![data[3 * k + 2], data[3 * k + 1], data[3 * k], 0xFFu8],
            ),
            true,
        )
    } else {
        let (colors, end) = subcodec::rlex(data, pair(s, 4) * pair(s, 6));
        (colors, end is Ok)
    }
}

/// A layer of one rectangle, raw or of palette runs, that lies in the destination: it ends well
/// unless the raw pixels are too few or too many, or the palette runs do not end well. A pixel of
/// the destination that lies in the rectangle, and whose color is listed, takes that color, and
/// every other one stays.
pub proof fn law_rectangle_is_painted_in_its_place(
    s: Seq<u8>,
    w: int,
    h: int,
    out: Seq<u8>,
    px: int,
    py: int,
    i: int,
)
    requires
        is_single_rectangle(s),
        lies_inside(s, w, h),
        s[12] == 0 && s.len() - 13 == 3 * (pair(s, 4) * pair(s, 6)) || s[12] == 2,
        out.len() == w * h * 4,
        0 <= px < w,
        0 <= py < h,
        0 <= i < 4,
    ensures
        ({
            let (painted, end) = subcodec::subcodec_layer(s, 0, w, h, out);
            let (x, y, sw, sh) = (pair(s, 0), pair(s, 2), pair(s, 4), pair(s, 6));
            let (colors, whole) = listed(s);
            let k = (py - y) * sw + (px - x);
            let at = 4 * (py * w + px) + i;
            &&& end is Ok <==> whole
            &&& end is Ok ==> colors.len() == sw * sh
            &&& painted.len() == out.len()
            &&& painted[at] == if x <= px < x + sw && y <= py < y + sh && k < colors.len() {
                colors[k][i]
            } else {
                out[at]
            }
        }),
{
    let (x, y, sw, sh) = (pair(s, 0), pair(s, 2), pair(s, 4), pair(s, 6));
    let data = s.skip(13);
    assert(s.subrange(13, s.len() as int) =~= data);
    let (colors, whole) = listed(s);
    assert(0 <= sw * sh) by (nonlinear_arith)
        requires
            0 <= sw,
            0 <= sh,
    ;
    if s[12] == 0 {
        assert(colors =~= paint::bgr_to_rgba(data));
    } else {
        lemma_rlex_bound(data, sw * sh);
        if whole {
            laws::law_palette_runs_cover_the_rectangle(data, sw * sh);
        }
    }
    paint::lemma_paint_len(out, w, x, y, sw, colors);
    laws::law_paint_sets_the_rectangle_only(out, w, h, x, y, sw, sh, colors, px, py, i);
    reveal_with_fuel(subcodec::subcodec_layer, 2);
    let k = (py - y) * sw + (px - x);
    if x <= px < x + sw && y <= py && py >= y + sh {
        assert(k >= sw * sh) by (nonlinear_arith)
            requires
                k == (py - y) * sw + (px - x),
                py - y >= sh,
                px >= x,
                0 <= sw,
        ;
    }
}

/// A layer of one rectangle is refused as a whole, and paints nothing, where the rectangle does not
/// lie in the destination, where raw pixels are too few or too many, and where it is coded in
/// another way.
pub proof fn law_rectangle_is_refused(s: Seq<u8>, w: int, h: int, out: Seq<u8>)
    requires
        is_single_rectangle(s),
        !lies_inside(s, w, h) || s[12] == 0 && s.len() - 13 != 3 * (pair(s, 4) * pair(s, 6))
            || s[12] == 1 || s[12] > 2,
    ensures
        subcodec::subcodec_layer(s, 0, w, h, out).0 == out,
        subcodec::subcodec_layer(s, 0, w, h, out).1 is Err,
{
}

/// A rectangle that is not all there is refused, and paints nothing.
pub proof fn law_rectangle_must_be_whole(s: Seq<u8>, w: int, h: int, out: Seq<u8>)
    requires
        0 < s.len() < 13 || s.len() >= 13 && s.len() - 13 < s[8] + 0x100 * s[9] + 0x1_0000 * s[10]
            + 0x100_0000 * s[11],
    ensures
        subcodec::subcodec_layer(s, 0, w, h, out).0 == out,
        subcodec::subcodec_layer(s, 0, w, h, out).1 is Err,
{
}

proof fn lemma_rlex_bound(s: Seq<u8>, total: int)
    requires
        0 <= total,
    ensures
        subcodec::rlex(s, total).0.len() <= total,
{
    lemma_rlex_colors_bound(s, 1 + 3 * s[0], subcodec::palette(s), Seq::empty(), total);
}

proof fn lemma_rlex_colors_bound(
    s: Seq<u8>,
    p: int,
    pal: Seq<Seq<u8>>,
    done: Seq<Seq<u8>>,
    total: int,
)
    requires
        done.len() <= total,
    ensures
        subcodec::rlex_colors(s, p, pal, done, total).0.len() <= total,
    decreases s.len() - p,
{
    if p < s.len() {
        if let Ok((run, used)) = residual::run_length(s, p + 1) {
            let unit = pow2(subcodec::index_bits(pal.len() as int) as nat) as int;
            let depth = s[p] as int / unit;
            let stop = s[p] as int % unit;
            let start = stop - depth;
            lemma_pow2_pos(subcodec::index_bits(pal.len() as int) as nat);
            lemma_div_pos_is_pos(s[p] as int, unit);
            let filled = done + paint::repeated(pal[start], run);
            if start >= 0 && stop < pal.len() && done.len() + run <= total && filled.len() + depth
                + 1 <= total {
                lemma_rlex_colors_bound(
                    s,
                    p + 1 + used,
                    pal,
                    filled + pal.subrange(start, stop + 1),
                    total,
                );
            }
        }
    }
}

/// What stands behind the first bytes of a layer is read as it would be by itself.
proof fn lemma_behind(a: Seq<u8>, b: Seq<u8>, p: int, w: int, h: int, out: Seq<u8>)
    requires
        0 <= p,
    ensures
        subcodec::subcodec_layer(a + b, a.len() + p, w, h, out) == subcodec::subcodec_layer(
            b,
            p,
            w,
            h,
            out,
        ),
    decreases b.len() - p,
{
    let s = a + b;
    let q = a.len() + p;
    if p + 13 <= b.len() {
        assert forall|i: int| 0 <= i < 13 implies s[q + i] == #[trigger] b[p + i] by {}
        assert(s[q + 0] == b[p + 0] && s[q + 1] == b[p + 1] && s[q + 2] == b[p + 2]);
        assert(s[q + 3] == b[p + 3] && s[q + 4] == b[p + 4] && s[q + 5] == b[p + 5]);
        assert(s[q + 6] == b[p + 6] && s[q + 7]
            == b[p + 7] && s[q + 8] == b[p + 8] && s[q + 9] == b[p + 9] && s[q + 10] == b[p + 10]
            && s[q + 11] == b[p + 11] && s[q + 12] == b[p + 12]);
        let size = bytes::le32(b, p + 8);
        assert(bytes::le32(s, q + 8) == size);
        if p + 13 + size <= b.len() {
            assert(s.subrange(q + 13, q + 13 + size) =~= b.subrange(p + 13, p + 13 + size));
            let x = bytes::le16(b, p);
            let y = bytes::le16(b, p + 2);
            let sw = bytes::le16(b, p + 4);
            let sh = bytes::le16(b, p + 6);
            let data = b.subrange(p + 13, p + 13 + size);
            let colors = if b[p + 12] == 0 {
                paint::bgr_to_rgba(data)
            } else {
                subcodec::rlex(data, sw * sh).0
            };
            let painted = paint::paint(out, w, x, y, sw, colors);
            lemma_behind(a, b, p + 13 + size, w, h, painted);
        }
    }
}

proof fn lemma_then(a: Seq<u8>, b: Seq<u8>, p: int, w: int, h: int, out: Seq<u8>)
    requires
        0 <= p <= a.len(),
        subcodec::subcodec_layer(a, p, w, h, out).1 is Ok,
    ensures
        subcodec::subcodec_layer(a + b, p, w, h, out) == subcodec::subcodec_layer(
            b,
            0,
            w,
            h,
            subcodec::subcodec_layer(a, p, w, h, out).0,
        ),
    decreases a.len() - p,
{
    let s = a + b;
    if p == a.len() {
        lemma_behind(a, b, 0, w, h, out);
    } else {
        assert(s[p] == a[p] && s[p + 1] == a[p + 1] && s[p + 2] == a[p + 2] && s[p + 3] == a[p + 3]
            && s[p + 4] == a[p + 4] && s[p + 5] == a[p + 5] && s[p + 6] == a[p + 6]);
        assert(s[p + 7] == a[p + 7] && s[p + 8] == a[p + 8] && s[p + 9] == a[p + 9]);
        assert(s[p + 10] == a[p + 10] && s[p + 11] == a[p + 11] && s[p + 12] == a[p + 12]);
        let size = bytes::le32(a, p + 8);
        assert(s.subrange(p + 13, p + 13 + size) =~= a.subrange(p + 13, p + 13 + size));
        let x = bytes::le16(a, p);
        let y = bytes::le16(a, p + 2);
        let sw = bytes::le16(a, p + 4);
        let sh = bytes::le16(a, p + 6);
        let data = a.subrange(p + 13, p + 13 + size);
        let colors = if a[p + 12] == 0 {
            paint::bgr_to_rgba(data)
        } else {
            subcodec::rlex(data, sw * sh).0
        };
        let painted = paint::paint(out, w, x, y, sw, colors);
        lemma_then(a, b, p + 13 + size, w, h, painted);
    }
}

/// Rectangles are painted in turn: a layer that ends well, with more behind it, does what the two
/// parts do one after the other. A layer without bytes paints nothing.
pub proof fn law_rectangles_come_in_turn(a: Seq<u8>, b: Seq<u8>, w: int, h: int, out: Seq<u8>)
    requires
        subcodec::subcodec_layer(a, 0, w, h, out).1 is Ok,
    ensures
        subcodec::subcodec_layer(a + b, 0, w, h, out) == subcodec::subcodec_layer(
            b,
            0,
            w,
            h,
            subcodec::subcodec_layer(a, 0, w, h, out).0,
        ),
        subcodec::subcodec_layer(Seq::empty(), 0, w, h, out) == (out, Ok::<(), Seq<char>>(())),
{
    lemma_then(a, b, 0, w, h, out);
}

/// A rectangle that does not end well ends the layer.
pub proof fn law_failed_rectangle_ends_the_layer(
    a: Seq<u8>,
    b: Seq<u8>,
    w: int,
    h: int,
    out: Seq<u8>,
)
    requires
        is_single_rectangle(a),
        subcodec::subcodec_layer(a, 0, w, h, out).1 is Err,
    ensures
        subcodec::subcodec_layer(a + b, 0, w, h, out) == subcodec::subcodec_layer(a, 0, w, h, out),
{
    let s = a + b;
    assert(s[0] == a[0] && s[1] == a[1] && s[2] == a[2] && s[3] == a[3] && s[4] == a[4] && s[5]
        == a[5] && s[6] == a[6] && s[7] == a[7] && s[8] == a[8] && s[9] == a[9] && s[10] == a[10]
        && s[11] == a[11] && s[12] == a[12]);
    let size = bytes::le32(a, 8);
    assert(s.subrange(13, 13 + size) =~= a.subrange(13, 13 + size));
    reveal_with_fuel(subcodec::subcodec_layer, 2);
}

} // verus!
