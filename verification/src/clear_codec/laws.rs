//! What holds of the decoder as a whole.

use crate::bytes;
use crate::clear_codec::bands::{Band, BarCaches};
use crate::clear_codec::decoder::{
    ClearState, FLAG_CACHE_RESET, FLAG_GLYPH_HIT, FLAG_GLYPH_INDEX, GLYPH_CACHE_SIZE,
};
use crate::clear_codec::{bands, decoder, paint, residual, subcodec};
use vstd::arithmetic::div_mod::*;
use vstd::arithmetic::mul::*;
use vstd::arithmetic::power2::*;
use vstd::prelude::*;

verus! {

/// Two runs over different buffers agree: every byte was either painted, and is the same in both,
/// or was left alone in both.
pub open spec fn same_painting(out1: Seq<u8>, out2: Seq<u8>, a: Seq<u8>, b: Seq<u8>) -> bool {
    &&& out1.len() == out2.len() == a.len() == b.len()
    &&& forall|i: int|
        0 <= i < a.len() ==> #[trigger] a[i] == b[i] || (a[i] == out1[i] && b[i] == out2[i])
}

proof fn lemma_same_paint(
    out1: Seq<u8>,
    out2: Seq<u8>,
    a: Seq<u8>,
    b: Seq<u8>,
    w: int,
    x: int,
    y: int,
    cols: int,
    colors: Seq<Seq<u8>>,
)
    requires
        same_painting(out1, out2, a, b),
    ensures
        same_painting(
            out1,
            out2,
            paint::paint(a, w, x, y, cols, colors),
            paint::paint(b, w, x, y, cols, colors),
        ),
    decreases colors.len(),
{
    if colors.len() > 0 {
        lemma_same_paint(out1, out2, a, b, w, x, y, cols, colors.drop_last());
    }
}

proof fn lemma_same_columns(
    out1: Seq<u8>,
    out2: Seq<u8>,
    c: BarCaches,
    s: Seq<u8>,
    p: int,
    band: Band,
    x: int,
    w: int,
    h: int,
    a: Seq<u8>,
    b: Seq<u8>,
)
    requires
        same_painting(out1, out2, a, b),
    ensures
        ({
            let u = bands::band_columns(c, s, p, band, x, w, h, a);
            let v = bands::band_columns(c, s, p, band, x, w, h, b);
            u.0 == v.0 && u.2 == v.2 && same_painting(out1, out2, u.1, v.1)
        }),
    decreases band.x_end + 1 - x,
{
    if x <= band.x_end {
        if let Ok((next, used, bar)) = bands::bar_at(c, s, p, band.background, band.height()) {
            let rows = bands::lesser(bands::lesser(bar.len() as int / 4, band.height()), h);
            let inside = if band.y_start < h {
                h - band.y_start
            } else {
                0
            };
            let cut = if rows > inside {
                inside
            } else {
                rows
            };
            lemma_same_paint(out1, out2, a, b, w, x, band.y_start, 1, paint::pixels(bar).take(cut));
            let u = bands::paint_bar(a, w, h, x, band.y_start, band.height(), bar);
            let v = bands::paint_bar(b, w, h, x, band.y_start, band.height(), bar);
            if u.1 is Ok {
                lemma_same_columns(out1, out2, next, s, p + used, band, x + 1, w, h, u.0, v.0);
            }
        }
    }
}

proof fn lemma_same_bands(
    out1: Seq<u8>,
    out2: Seq<u8>,
    c: BarCaches,
    s: Seq<u8>,
    p: int,
    w: int,
    h: int,
    a: Seq<u8>,
    b: Seq<u8>,
)
    requires
        same_painting(out1, out2, a, b),
    ensures
        ({
            let u = bands::bands_layer(c, s, p, w, h, a);
            let v = bands::bands_layer(c, s, p, w, h, b);
            u.0 == v.0 && u.2 == v.2 && same_painting(out1, out2, u.1, v.1)
        }),
    decreases s.len() - p,
{
    if p + 11 <= s.len() {
        let band = bands::band_at(s, p);
        if band.x_start <= band.x_end && band.y_start <= band.y_end && band.height() <= 52 {
            bands::lemma_columns_advance(c, s, p + 11, band, band.x_start, w, h, a);
            lemma_same_columns(out1, out2, c, s, p + 11, band, band.x_start, w, h, a, b);
            let u = bands::band_columns(c, s, p + 11, band, band.x_start, w, h, a);
            let v = bands::band_columns(c, s, p + 11, band, band.x_start, w, h, b);
            if let Ok(q) = u.2 {
                lemma_same_bands(out1, out2, u.0, s, q, w, h, u.1, v.1);
            }
        }
    }
}

proof fn lemma_same_subcodecs(
    out1: Seq<u8>,
    out2: Seq<u8>,
    s: Seq<u8>,
    p: int,
    w: int,
    h: int,
    a: Seq<u8>,
    b: Seq<u8>,
)
    requires
        same_painting(out1, out2, a, b),
        0 <= p,
    ensures
        ({
            let u = subcodec::subcodec_layer(s, p, w, h, a);
            let v = subcodec::subcodec_layer(s, p, w, h, b);
            u.1 == v.1 && same_painting(out1, out2, u.0, v.0)
        }),
    decreases s.len() - p,
{
    if p < s.len() && p + 13 <= s.len() && p + 13 + bytes::le32(s, p + 8) <= s.len() {
        let x = bytes::le16(s, p);
        let y = bytes::le16(s, p + 2);
        let sw = bytes::le16(s, p + 4);
        let sh = bytes::le16(s, p + 6);
        let size = bytes::le32(s, p + 8);
        let data = s.subrange(p + 13, p + 13 + size);
        let colors = if s[p + 12] == 0 {
            paint::bgr_to_rgba(data)
        } else {
            subcodec::rlex(data, sw * sh).0
        };
        lemma_same_paint(out1, out2, a, b, w, x, y, sw, colors);
        lemma_same_subcodecs(
            out1,
            out2,
            s,
            p + 13 + size,
            w,
            h,
            paint::paint(a, w, x, y, sw, colors),
            paint::paint(b, w, x, y, sw, colors),
        );
    }
}

/// What a stream paints does not depend on what the destination held, and what it does not paint
/// keeps its content: whatever two destinations held before, the decoder is in the same state
/// after both, but for a glyph that the stream stores, the end is the same, and every byte is
/// either the same in both or as it was in each.
pub proof fn law_unpainted_bytes_keep_their_content(
    state: ClearState,
    src: Seq<u8>,
    w: int,
    h: int,
    out1: Seq<u8>,
    out2: Seq<u8>,
)
    requires
        state.wf(),
        out1.len() == out2.len(),
    ensures
        ({
            let a = decoder::clear_decode(state, src, w, h, out1);
            let b = decoder::clear_decode(state, src, w, h, out2);
            &&& a.res == b.res
            &&& a.state.bars == b.state.bars
            &&& a.state.seq_number == b.state.seq_number
            &&& a.state.seq_started == b.state.seq_started
            &&& forall|i: int|
                0 <= i < GLYPH_CACHE_SIZE && i != bytes::le16(src, 2) ==> #[trigger]
                    a.state.glyphs[i] == b.state.glyphs[i]
            &&& same_painting(out1, out2, a.out, b.out)
        }),
{
    lemma_same_composition(state.begin(src[0], src[1]), src, 2, w, h, out1, out2);
    lemma_same_composition(state.begin(src[0], src[1]), src, 4, w, h, out1, out2);
}

/// Two runs of the layers over different buffers agree.
pub proof fn lemma_same_composition(
    state: ClearState,
    src: Seq<u8>,
    p: int,
    w: int,
    h: int,
    out1: Seq<u8>,
    out2: Seq<u8>,
)
    requires
        out1.len() == out2.len(),
        0 <= p,
    ensures
        ({
            let a = decoder::composition(state, src, p, w, h, out1);
            let b = decoder::composition(state, src, p, w, h, out2);
            &&& a.res == b.res
            &&& a.state == b.state
            &&& same_painting(out1, out2, a.out, b.out)
        }),
{
    if p + 12 <= src.len() {
        let residual_size = bytes::le32(src, p);
        let bands_start = p + 12 + residual_size;
        let subcodec_start = bands_start + bytes::le32(src, p + 4);
        let end = subcodec_start + bytes::le32(src, p + 8);
        let first = src.subrange(p + 12, bands_start);
        let colors = if residual_size > 0 {
            residual::residual_colors(first, 0, Seq::empty(), w * h).0
        } else {
            Seq::empty()
        };
        lemma_same_paint(out1, out2, out1, out2, w, 0, 0, w, colors);
        let a = paint::paint(out1, w, 0, 0, w, colors);
        let b = paint::paint(out2, w, 0, 0, w, colors);
        let second = src.subrange(bands_start, subcodec_start);
        lemma_same_bands(out1, out2, state.bars, second, 0, w, h, a, b);
        let u = if bytes::le32(src, p + 4) > 0 {
            bands::bands_layer(state.bars, second, 0, w, h, a).1
        } else {
            a
        };
        let v = if bytes::le32(src, p + 4) > 0 {
            bands::bands_layer(state.bars, second, 0, w, h, b).1
        } else {
            b
        };
        lemma_same_subcodecs(out1, out2, src.subrange(subcodec_start, end), 0, w, h, u, v);
    }
}

/// A stream that names a glyph stores what it composed: a later stream that hits the same entry
/// for a rectangle of the same size shows the same pixels, whatever the destination held.
pub proof fn law_glyph_hit_shows_what_was_composed(
    state: ClearState,
    stored: Seq<u8>,
    hit: Seq<u8>,
    w: int,
    h: int,
    out1: Seq<u8>,
    out2: Seq<u8>,
)
    requires
        state.wf(),
        stored[0] & FLAG_GLYPH_INDEX != 0,
        stored[0] & FLAG_GLYPH_HIT == 0,
        decoder::clear_decode(state, stored, w, h, out1).res is Ok,
        hit.len() >= 4,
        hit[0] & FLAG_GLYPH_INDEX != 0,
        hit[0] & FLAG_GLYPH_HIT != 0,
        bytes::le16(hit, 2) == bytes::le16(stored, 2),
        out2.len() == out1.len(),
    ensures
        ({
            let first = decoder::clear_decode(state, stored, w, h, out1);
            let second = decoder::clear_decode(first.state, hit, w, h, out2);
            second.res is Ok && second.out == first.out
        }),
{
    let begun = state.begin(stored[0], stored[1]);
    lemma_same_composition(begun, stored, 4, w, h, out1, out1);
    let first = decoder::clear_decode(state, stored, w, h, out1);
    assert(first.out.take(out2.len() as int) =~= first.out);
}

/// A glyph stays until a stream stores another under its index.
pub proof fn law_glyph_stays(
    state: ClearState,
    src: Seq<u8>,
    w: int,
    h: int,
    out: Seq<u8>,
    index: int,
)
    requires
        state.wf(),
        0 <= index < GLYPH_CACHE_SIZE,
        src[0] & FLAG_GLYPH_INDEX == 0 || src[0] & FLAG_GLYPH_HIT != 0 || bytes::le16(src, 2)
            != index || decoder::clear_decode(state, src, w, h, out).res is Err,
    ensures
        decoder::clear_decode(state, src, w, h, out).state.glyphs[index] == state.glyphs[index],
{
}

/// A stream that only hits a glyph, and fails, leaves the destination and the caches' contents as
/// they were.
pub proof fn law_failed_hit_changes_no_pixel(
    state: ClearState,
    src: Seq<u8>,
    w: int,
    h: int,
    out: Seq<u8>,
)
    requires
        src[0] & FLAG_GLYPH_HIT != 0,
        decoder::clear_decode(state, src, w, h, out).res is Err,
    ensures
        ({
            let o = decoder::clear_decode(state, src, w, h, out);
            &&& o.out == out
            &&& o.state.glyphs == state.glyphs
            &&& o.state.bars.vbars == state.bars.vbars
            &&& o.state.bars.shorts == state.bars.shorts
        }),
{
}

/// A stream whose sequence number does not follow is decoded like any other: neither the number
/// that was awaited nor the one that came has an effect on the pixels, the caches or the result.
pub proof fn law_sequence_number_is_adopted(
    state: ClearState,
    awaited: u8,
    started: bool,
    src: Seq<u8>,
    number: u8,
    w: int,
    h: int,
    out: Seq<u8>,
)
    requires
        src.len() >= 2,
    ensures
        ({
            let other = ClearState { seq_number: awaited, seq_started: started, ..state };
            let a = decoder::clear_decode(state, src, w, h, out);
            let b = decoder::clear_decode(other, src.update(1, number), w, h, out);
            &&& a.res == b.res
            &&& a.out == b.out
            &&& a.state.glyphs == b.state.glyphs
            &&& a.state.bars == b.state.bars
        }),
{
    let other = ClearState { seq_number: awaited, seq_started: started, ..state };
    let changed = src.update(1, number);
    lemma_composition_ignores_number(
        state.begin(src[0], src[1]),
        other.begin(src[0], number),
        src,
        changed,
        2,
        w,
        h,
        out,
    );
    lemma_composition_ignores_number(
        state.begin(src[0], src[1]),
        other.begin(src[0], number),
        src,
        changed,
        4,
        w,
        h,
        out,
    );
}

proof fn lemma_composition_ignores_number(
    state: ClearState,
    other: ClearState,
    src: Seq<u8>,
    changed: Seq<u8>,
    p: int,
    w: int,
    h: int,
    out: Seq<u8>,
)
    requires
        p >= 2,
        changed.len() == src.len(),
        forall|i: int| 2 <= i < src.len() ==> #[trigger] changed[i] == src[i],
        state.glyphs == other.glyphs,
        state.bars == other.bars,
    ensures
        ({
            let a = decoder::composition(state, src, p, w, h, out);
            let b = decoder::composition(other, changed, p, w, h, out);
            &&& a.res == b.res
            &&& a.out == b.out
            &&& a.state.glyphs == b.state.glyphs
            &&& a.state.bars == b.state.bars
        }),
{
    if p + 12 <= src.len() {
        let bands_start = p + 12 + bytes::le32(src, p);
        let subcodec_start = bands_start + bytes::le32(src, p + 4);
        let end = subcodec_start + bytes::le32(src, p + 8);
        if bands_start <= src.len() {
            assert(src.subrange(p + 12, bands_start) =~= changed.subrange(p + 12, bands_start));
        }
        if subcodec_start <= src.len() {
            assert(src.subrange(bands_start, subcodec_start) =~= changed.subrange(
                bands_start,
                subcodec_start,
            ));
        }
        if end <= src.len() {
            assert(src.subrange(subcodec_start, end) =~= changed.subrange(subcodec_start, end));
        }
    }
}

/// A cache reset rewinds the two rings and leaves their entries: a stream with the reset flag acts
/// as it would on a decoder whose rings stand at their start.
pub proof fn law_cache_reset_rewinds(
    state: ClearState,
    src: Seq<u8>,
    w: int,
    h: int,
    out: Seq<u8>,
)
    requires
        src.len() >= 2,
        src[0] & FLAG_CACHE_RESET != 0,
        0 < w,
        0 < h,
        w * h <= 1024 * 1024 * 16,
        out.len() == w * h * 4,
    ensures
        ({
            let rewound = ClearState {
                bars: BarCaches { vbar_cursor: 0, short_cursor: 0, ..state.bars },
                ..state
            };
            decoder::clear_decode(state, src, w, h, out) == decoder::clear_decode(
                rewound,
                src,
                w,
                h,
                out,
            )
        }),
        state.begin(src[0], src[1]).bars.vbars == state.bars.vbars,
        state.begin(src[0], src[1]).bars.shorts == state.bars.shorts,
{
}

/// A bar that was composed can be had again by the place that it was stored in.
pub proof fn law_bar_hit_shows_what_was_composed(
    c: BarCaches,
    s: Seq<u8>,
    p: int,
    background: Seq<u8>,
    height: int,
    t: Seq<u8>,
    q: int,
    other_background: Seq<u8>,
    other_height: int,
)
    requires
        c.wf(),
        bytes::le16(s, p) < 0x8000,
        bands::bar_at(c, s, p, background, height) is Ok,
        q + 2 <= t.len(),
        bytes::le16(t, q) == 0x8000 + c.vbar_cursor,
    ensures
        ({
            let first = bands::bar_at(c, s, p, background, height)->Ok_0;
            bands::bar_at(first.0, t, q, other_background, other_height) == Ok::<_, Seq<char>>(
                (first.0, 2int, first.2),
            )
        }),
{
}

/// A short bar that came inline can be had again by the place that it was stored in: laid over the
/// same background from the same row on, it gives the same bar.
pub proof fn law_short_bar_hit_gives_the_same_bar(
    c: BarCaches,
    s: Seq<u8>,
    p: int,
    background: Seq<u8>,
    height: int,
    t: Seq<u8>,
    q: int,
)
    requires
        c.wf(),
        bytes::le16(s, p) < 0x4000,
        bands::bar_at(c, s, p, background, height) is Ok,
        q + 3 <= t.len(),
        bytes::le16(t, q) == 0x4000 + c.short_cursor,
        t[q + 2] == bytes::le16(s, p) % 0x100,
    ensures
        ({
            let first = bands::bar_at(c, s, p, background, height)->Ok_0;
            let second = bands::bar_at(first.0, t, q, background, height);
            second is Ok && second->Ok_0.2 == first.2
        }),
{
}

/// An empty entry of the bar cache paints nothing.
pub proof fn law_empty_bar_paints_nothing(
    out: Seq<u8>,
    w: int,
    h: int,
    x: int,
    y: int,
    height: int,
)
    requires
        x < w,
        0 <= height,
        0 <= h,
    ensures
        bands::paint_bar(out, w, h, x, y, height, Seq::empty()) == (
            out,
            Ok::<(), Seq<char>>(()),
        ),
{
    assert(paint::pixels(Seq::empty()).take(0) =~= Seq::empty());
}

/// What painting a rectangle does to a pixel `(px, py)` of the destination: inside the painted
/// part of the rectangle it takes the color that is listed for it, elsewhere it stays.
pub proof fn law_paint_sets_the_rectangle_only(
    out: Seq<u8>,
    w: int,
    h: int,
    x: int,
    y: int,
    cols: int,
    rows: int,
    colors: Seq<Seq<u8>>,
    px: int,
    py: int,
    i: int,
)
    requires
        out.len() == w * h * 4,
        0 <= x,
        0 <= y,
        0 <= cols,
        x + cols <= w,
        y + rows <= h,
        colors.len() <= cols * rows,
        0 <= px < w,
        0 <= py < h,
        0 <= i < 4,
    ensures
        ({
            let at = 4 * (py * w + px) + i;
            let k = (py - y) * cols + (px - x);
            paint::paint(out, w, x, y, cols, colors)[at] == if x <= px < x + cols && y <= py && k
                < colors.len() {
                colors[k][i]
            } else {
                out[at]
            }
        }),
    decreases colors.len(),
{
    let at = 4 * (py * w + px) + i;
    let k = (py - y) * cols + (px - x);
    assert(0 <= py * w && py * w + w <= w * h) by (nonlinear_arith)
        requires
            0 <= py < h,
            0 <= w,
    ;
    if colors.len() > 0 {
        let last = colors.len() - 1;
        let before = colors.drop_last();
        law_paint_sets_the_rectangle_only(out, w, h, x, y, cols, rows, before, px, py, i);
        paint::lemma_place_inside(w, h, x, y, cols, rows, last);
        paint::lemma_paint_len(out, w, x, y, cols, before);
        let there = paint::place(w, x, y, cols, last);
        let row = y + last / cols;
        let col = x + last % cols;
        lemma_fundamental_div_mod(last, cols);
        lemma_mul_is_commutative(cols, last / cols);
        if there == py * w + px {
            lemma_fundamental_div_mod_converse(there, w, py, px);
            lemma_fundamental_div_mod_converse(there, w, row, col);
            assert(k == last);
        } else if x <= px < x + cols && y <= py && k == last {
            lemma_fundamental_div_mod_converse(last, cols, py - y, px - x);
        }
        if x <= px < x + cols && y <= py {
            assert(0 <= (py - y) * cols) by (nonlinear_arith)
                requires
                    0 <= py - y,
                    0 <= cols,
            ;
        }
    }
}

/// A residual layer that ends well has set every pixel: what the destination held before does not
/// show.
pub proof fn law_residual_covers_the_rectangle(
    s: Seq<u8>,
    w: int,
    h: int,
    out1: Seq<u8>,
    out2: Seq<u8>,
)
    requires
        0 < w,
        0 < h,
        out1.len() == w * h * 4,
        out2.len() == w * h * 4,
        residual::residual_layer(s, w, h, out1).1 is Ok,
    ensures
        residual::residual_layer(s, w, h, out2) == residual::residual_layer(s, w, h, out1),
{
    let colors = residual::residual_colors(s, 0, Seq::empty(), w * h).0;
    lemma_residual_total(s, 0, Seq::empty(), w * h);
    paint::lemma_paint_len(out1, w, 0, 0, w, colors);
    paint::lemma_paint_len(out2, w, 0, 0, w, colors);
    let a = paint::paint(out1, w, 0, 0, w, colors);
    let b = paint::paint(out2, w, 0, 0, w, colors);
    assert forall|at: int| 0 <= at < w * h * 4 implies a[at] == b[at] by {
        let k = at / 4;
        let px = k % w;
        let py = k / w;
        lemma_fundamental_div_mod(k, w);
        lemma_mul_is_commutative(w, py);
        assert(0 <= py < h) by (nonlinear_arith)
            requires
                0 <= k < w * h,
                0 < w,
                k == w * py + px,
                0 <= px < w,
        ;
        assert(4 * (py * w + px) + at % 4 == at);
        law_paint_sets_the_rectangle_only(out1, w, h, 0, 0, w, h, colors, px, py, at % 4);
        law_paint_sets_the_rectangle_only(out2, w, h, 0, 0, w, h, colors, px, py, at % 4);
    }
    assert(a =~= b);
}

proof fn lemma_residual_total(s: Seq<u8>, p: int, done: Seq<Seq<u8>>, total: int)
    ensures
        residual::residual_colors(s, p, done, total).1 is Ok ==> residual::residual_colors(
            s,
            p,
            done,
            total,
        ).0.len() == total,
    decreases s.len() - p,
{
    if p < s.len() && p + 3 <= s.len() {
        if let Ok((run, used)) = residual::run_length(s, p + 3) {
            if done.len() + run <= total {
                lemma_residual_total(
                    s,
                    p + 3 + used,
                    done + paint::repeated(paint::rgba(s[p + 2], s[p + 1], s[p]), run),
                    total,
                );
            }
        }
    }
}

/// A stream whose three layers are empty paints nothing.
pub proof fn law_empty_layers_paint_nothing(
    state: ClearState,
    src: Seq<u8>,
    w: int,
    h: int,
    out: Seq<u8>,
)
    requires
        src.len() >= 14,
        src[0] & FLAG_GLYPH_INDEX == 0,
        src[0] & FLAG_GLYPH_HIT == 0,
        bytes::le32(src, 2) == 0,
        bytes::le32(src, 6) == 0,
        bytes::le32(src, 10) == 0,
        0 < w,
        0 < h,
        w * h <= 1024 * 1024 * 16,
        out.len() == w * h * 4,
    ensures
        ({
            let o = decoder::clear_decode(state, src, w, h, out);
            o.res is Ok && o.out == out && o.state == state.begin(src[0], src[1])
        }),
{
}

/// Palette runs that end well have a color for every pixel of their rectangle.
pub proof fn law_palette_runs_cover_the_rectangle(s: Seq<u8>, total: int)
    requires
        subcodec::rlex(s, total).1 is Ok,
    ensures
        subcodec::rlex(s, total).0.len() == total,
{
    lemma_rlex_total(s, 1 + 3 * s[0], subcodec::palette(s), Seq::empty(), total);
}

proof fn lemma_rlex_total(
    s: Seq<u8>,
    p: int,
    pal: Seq<Seq<u8>>,
    done: Seq<Seq<u8>>,
    total: int,
)
    ensures
        subcodec::rlex_colors(s, p, pal, done, total).1 is Ok ==> subcodec::rlex_colors(
            s,
            p,
            pal,
            done,
            total,
        ).0.len() == total,
    decreases s.len() - p,
{
    if p < s.len() {
        if let Ok((run, used)) = residual::run_length(s, p + 1) {
            let unit = pow2(subcodec::index_bits(pal.len() as int) as nat) as int;
            let depth = s[p] as int / unit;
            let stop = s[p] as int % unit;
            let start = stop - depth;
            let filled = done + paint::repeated(pal[start], run);
            lemma_rlex_total(
                s,
                p + 1 + used,
                pal,
                filled + pal.subrange(start, stop + 1),
                total,
            );
        }
    }
}

} // verus!
