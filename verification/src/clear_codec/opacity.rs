//! Every color of a stream is opaque, and so is what is made of them.

use crate::bytes;
use crate::clear_codec::bands::{Band, BarCaches};
use crate::clear_codec::decoder::{ClearState, FLAG_GLYPH_HIT, GLYPH_CACHE_SIZE};
use crate::clear_codec::{bands, decoder, paint, residual, subcodec};
use vstd::arithmetic::div_mod::*;
use vstd::arithmetic::power2::*;
use vstd::prelude::*;

verus! {

/// Every pixel of a buffer is opaque.
pub open spec fn opaque(out: Seq<u8>) -> bool {
    forall|i: int| 0 <= i < out.len() && i % 4 == 3 ==> #[trigger] out[i] == 0xFF
}

/// Every cached bar and every glyph is opaque.
pub open spec fn opaque_caches(state: ClearState) -> bool {
    &&& forall|i: int| 0 <= i < state.glyphs.len() ==> opaque(#[trigger] state.glyphs[i])
    &&& opaque_bars(state.bars)
}

/// Every cached bar is opaque.
pub open spec fn opaque_bars(c: BarCaches) -> bool {
    &&& forall|i: int| 0 <= i < c.vbars.len() ==> opaque(#[trigger] c.vbars[i])
    &&& forall|i: int| 0 <= i < c.shorts.len() ==> opaque(#[trigger] c.shorts[i])
}

spec fn opaque_colors(colors: Seq<Seq<u8>>) -> bool {
    forall|i: int| 0 <= i < colors.len() ==> (#[trigger] colors[i])[3] == 0xFF
}

/// Pixel `k` is the same in two buffers.
pub open spec fn same_pixel(a: Seq<u8>, b: Seq<u8>, k: int) -> bool {
    forall|i: int| 0 <= i < 4 ==> #[trigger] a[4 * k + i] == b[4 * k + i]
}

/// Every pixel of a buffer keeps the value that it had, or is opaque.
pub open spec fn kept_or_opaque(before: Seq<u8>, after: Seq<u8>) -> bool {
    &&& after.len() == before.len()
    &&& forall|k: int|
        0 <= k && 4 * k + 4 <= after.len() ==> #[trigger] same_pixel(before, after, k) || after[4
            * k + 3] == 0xFF
}

/// A stream paints opaque pixels only: whatever the destination held, and however the stream ends,
/// without a glyph hit every pixel keeps its value or is opaque afterwards, and the cached bars
/// are opaque. A fresh decoder's are.
pub proof fn law_painted_pixels_are_opaque(
    state: ClearState,
    src: Seq<u8>,
    w: int,
    h: int,
    out: Seq<u8>,
)
    requires
        state.wf(),
        opaque_bars(state.bars),
        src[0] & FLAG_GLYPH_HIT == 0,
        0 <= h,
    ensures
        ({
            let o = decoder::clear_decode(state, src, w, h, out);
            kept_or_opaque(out, o.out) && opaque_bars(o.state.bars)
        }),
        opaque_bars(ClearState::initial().bars),
{
    let begun = state.begin(src[0], src[1]);
    lemma_opaque_composition(begun, src, 2, w, h, out);
    lemma_opaque_composition(begun, src, 4, w, h, out);
}

/// A destination without transparent pixels has none after a stream, and neither have the caches.
/// A fresh decoder's have none.
#[verifier::rlimit(30)]
pub proof fn law_opaque_pixels_stay_opaque(
    state: ClearState,
    src: Seq<u8>,
    w: int,
    h: int,
    out: Seq<u8>,
)
    requires
        state.wf(),
        opaque_caches(state),
        opaque(out),
        0 <= h,
    ensures
        ({
            let o = decoder::clear_decode(state, src, w, h, out);
            opaque(o.out) && opaque_caches(o.state)
        }),
        opaque_caches(ClearState::initial()),
{
    let begun = state.begin(src[0], src[1]);
    lemma_opaque_composition(begun, src, 2, w, h, out);
    lemma_opaque_composition(begun, src, 4, w, h, out);
    let o = decoder::clear_decode(state, src, w, h, out);
    let hit = begun.glyphs[bytes::le16(src, 2)];
    assert(0 <= bytes::le16(src, 2) < GLYPH_CACHE_SIZE ==> opaque(hit));
    assert(opaque(o.out)) by {
        if kept_or_opaque(out, o.out) && out.len() % 4 == 0 {
            lemma_opaque_kept(out, o.out);
        } else if o.out != out {
            assert forall|i: int|
                0 <= i < o.out.len() && i % 4 == 3 implies #[trigger] o.out[i] == 0xFF by {
                assert(o.out[i] == hit[i]);
            }
        }
    }
    assert forall|i: int| 0 <= i < o.state.glyphs.len() implies opaque(
        #[trigger] o.state.glyphs[i],
    ) by {
        assert(opaque(state.glyphs[i]));
    }
}

/// What is kept of an opaque buffer is opaque.
proof fn lemma_opaque_kept(before: Seq<u8>, after: Seq<u8>)
    requires
        opaque(before),
        kept_or_opaque(before, after),
        after.len() % 4 == 0,
    ensures
        opaque(after),
{
    assert forall|i: int| 0 <= i < after.len() && i % 4 == 3 implies #[trigger] after[i]
        == 0xFF by {
        let k = i / 4;
        assert(same_pixel(before, after, k) || after[4 * k + 3] == 0xFF);
        assert(4 * k + 3 == i);
        assert(before[i] == 0xFF);
        if same_pixel(before, after, k) {
            assert(before[4 * k + 3] == after[4 * k + 3]);
        }
    }
}

proof fn lemma_opaque_paint(
    start: Seq<u8>,
    out: Seq<u8>,
    w: int,
    x: int,
    y: int,
    cols: int,
    colors: Seq<Seq<u8>>,
)
    requires
        kept_or_opaque(start, out),
        opaque_colors(colors),
    ensures
        kept_or_opaque(start, paint::paint(out, w, x, y, cols, colors)),
    decreases colors.len(),
{
    if colors.len() > 0 {
        let before = colors.drop_last();
        assert forall|i: int| 0 <= i < before.len() implies (#[trigger] before[i])[3] == 0xFF by {
            assert(before[i] == colors[i]);
        }
        lemma_opaque_paint(start, out, w, x, y, cols, before);
        assert(colors.last()[3] == 0xFF);
        let a = paint::paint(out, w, x, y, cols, before);
        let b = paint::paint(out, w, x, y, cols, colors);
        let at = paint::place(w, x, y, cols, colors.len() - 1);
        assert(b == paint::put_pixel(a, at, colors.last()));
        assert forall|k: int| 0 <= k && 4 * k + 4 <= b.len() implies #[trigger] same_pixel(
            start,
            b,
            k,
        ) || b[4 * k + 3] == 0xFF by {
            assert(same_pixel(start, a, k) || a[4 * k + 3] == 0xFF);
            if k == at {
                assert(b[4 * k + 3] == colors.last()[3]);
            } else {
                assert(forall|i: int| 0 <= i < 4 ==> b[4 * k + i] == #[trigger] a[4 * k + i]);
                if same_pixel(start, a, k) {
                    assert forall|i: int| 0 <= i < 4 implies #[trigger] start[4 * k + i] == b[4 * k
                        + i] by {
                        assert(start[4 * k + i] == a[4 * k + i]);
                    }
                }
            }
        }
    }
}

proof fn lemma_opaque_residual(s: Seq<u8>, p: int, done: Seq<Seq<u8>>, total: int)
    requires
        opaque_colors(done),
    ensures
        opaque_colors(residual::residual_colors(s, p, done, total).0),
    decreases s.len() - p,
{
    if p < s.len() && p + 3 <= s.len() {
        if let Ok((run, used)) = residual::run_length(s, p + 3) {
            let more = paint::repeated(paint::rgba(s[p + 2], s[p + 1], s[p]), run);
            lemma_opaque_residual(s, p + 3 + used, done + more, total);
        }
    }
}

proof fn lemma_opaque_rlex(
    s: Seq<u8>,
    p: int,
    pal: Seq<Seq<u8>>,
    done: Seq<Seq<u8>>,
    total: int,
)
    requires
        opaque_colors(pal),
        opaque_colors(done),
    ensures
        opaque_colors(subcodec::rlex_colors(s, p, pal, done, total).0),
    decreases s.len() - p,
{
    if p < s.len() {
        if let Ok((run, used)) = residual::run_length(s, p + 1) {
            let unit = pow2(subcodec::index_bits(pal.len() as int) as nat) as int;
            lemma_pow2_pos(subcodec::index_bits(pal.len() as int) as nat);
            let depth = s[p] as int / unit;
            let stop = s[p] as int % unit;
            let start = stop - depth;
            if start >= 0 && stop < pal.len() {
                lemma_div_pos_is_pos(s[p] as int, unit);
                let filled = done + paint::repeated(pal[start], run);
                let suite = pal.subrange(start, stop + 1);
                assert(opaque_colors(filled)) by {
                    assert(pal[start][3] == 0xFF);
                }
                assert(opaque_colors(filled + suite)) by {
                    assert forall|i: int| 0 <= i < (filled + suite).len() implies (
                    #[trigger] (filled + suite)[i])[3] == 0xFF by {
                        if i < filled.len() {
                            assert((filled + suite)[i] == filled[i]);
                        } else {
                            assert((filled + suite)[i] == pal[start + i - filled.len()]);
                        }
                    }
                }
                lemma_opaque_rlex(s, p + 1 + used, pal, filled + suite, total);
            }
        }
    }
}

proof fn lemma_opaque_bar(
    c: BarCaches,
    s: Seq<u8>,
    p: int,
    background: Seq<u8>,
    height: int,
)
    requires
        c.wf(),
        opaque_bars(c),
        background[3] == 0xFF,
        0 <= height,
    ensures
        bands::bar_at(c, s, p, background, height) matches Ok((next, used, bar)) ==> opaque_bars(
            next,
        ) && opaque(bar),
{
    if p + 2 <= s.len() {
        let header = bytes::le16(s, p);
        let y_on = header % 0x100;
        let y_off = header / 0x100;
        if header / 0x4000 == 1 {
            assert(opaque(c.shorts[header % 0x4000]));
        } else if header / 0x4000 == 0 {
            let count = y_off - y_on;
            if 0 <= count && p + 2 + 3 * count <= s.len() {
                let short = bands::flat(
                    paint::bgr_to_rgba(s.subrange(p + 2, p + 2 + 3 * count)),
                );
                assert(opaque(short));
            }
        } else {
            assert(opaque(c.vbars[header % 0x8000]));
        }
    }
}

proof fn lemma_opaque_columns(
    start: Seq<u8>,
    c: BarCaches,
    s: Seq<u8>,
    p: int,
    band: Band,
    x: int,
    w: int,
    h: int,
    out: Seq<u8>,
)
    requires
        c.wf(),
        opaque_bars(c),
        kept_or_opaque(start, out),
        0 <= h,
        0 <= p,
        band.background[3] == 0xFF,
        0 <= band.height() <= 52,
    ensures
        ({
            let o = bands::band_columns(c, s, p, band, x, w, h, out);
            o.0.wf() && opaque_bars(o.0) && kept_or_opaque(start, o.1)
        }),
    decreases band.x_end + 1 - x,
{
    if x <= band.x_end {
        lemma_opaque_bar(c, s, p, band.background, band.height());
        lemma_bar_keeps_order(c, s, p, band.background, band.height());
        if let Ok((next, used, bar)) = bands::bar_at(c, s, p, band.background, band.height()) {
            let colors = paint::pixels(bar);
            assert(opaque_colors(colors)) by {
                assert forall|i: int| 0 <= i < colors.len() implies (#[trigger] colors[i])[3]
                    == 0xFF by {
                    assert(colors[i][3] == bar[4 * i + 3]);
                }
            }
            let rows = bands::lesser(
                bands::lesser(bar.len() as int / 4, band.height()),
                h,
            );
            let inside = if band.y_start < h {
                h - band.y_start
            } else {
                0
            };
            let cut = if rows > inside {
                inside
            } else {
                rows
            };
            lemma_opaque_paint(start, out, w, x, band.y_start, 1, colors.take(cut));
            let (painted, end) = bands::paint_bar(
                out,
                w,
                h,
                x,
                band.y_start,
                band.height(),
                bar,
            );
            if end is Ok {
                lemma_opaque_columns(start, next, s, p + used, band, x + 1, w, h, painted);
            }
        }
    }
}

/// Reading a bar leaves the caches in order.
proof fn lemma_bar_keeps_order(
    c: BarCaches,
    s: Seq<u8>,
    p: int,
    background: Seq<u8>,
    height: int,
)
    requires
        c.wf(),
        0 <= p,
        0 <= height <= 52,
    ensures
        bands::bar_at(c, s, p, background, height) matches Ok((next, used, bar)) ==> next.wf(),
{
    if let Ok((next, used, bar)) = bands::bar_at(c, s, p, background, height) {
        let header = bytes::le16(s, p);
        if header / 0x4000 < 2 {
            assert(bands::is_bar(bar));
        }
        if header / 0x4000 == 0 {
            let count = header / 0x100 - header % 0x100;
            let raw = s.subrange(p + 2, p + 2 + 3 * count);
            assert(raw.len() == 3 * count);
            assert(bands::is_bar(bands::flat(paint::bgr_to_rgba(raw))));
        }
        assert forall|i: int| 0 <= i < next.vbars.len() implies bands::is_bar(
            #[trigger] next.vbars[i],
        ) by {
            assert(bands::is_bar(c.vbars[i]));
        }
        assert forall|i: int| 0 <= i < next.shorts.len() implies bands::is_bar(
            #[trigger] next.shorts[i],
        ) by {
            assert(bands::is_bar(c.shorts[i]));
        }
    }
}

proof fn lemma_opaque_bands(
    start: Seq<u8>,
    c: BarCaches,
    s: Seq<u8>,
    p: int,
    w: int,
    h: int,
    out: Seq<u8>,
)
    requires
        c.wf(),
        opaque_bars(c),
        kept_or_opaque(start, out),
        0 <= h,
        0 <= p,
    ensures
        ({
            let o = bands::bands_layer(c, s, p, w, h, out);
            opaque_bars(o.0) && kept_or_opaque(start, o.1)
        }),
    decreases s.len() - p,
{
    if p + 11 <= s.len() {
        let band = bands::band_at(s, p);
        if band.x_start <= band.x_end && band.y_start <= band.y_end && band.height() <= 52 {
            bands::lemma_columns_advance(c, s, p + 11, band, band.x_start, w, h, out);
            lemma_opaque_columns(start, c, s, p + 11, band, band.x_start, w, h, out);
            let o = bands::band_columns(c, s, p + 11, band, band.x_start, w, h, out);
            if let Ok(q) = o.2 {
                lemma_opaque_bands(start, o.0, s, q, w, h, o.1);
            }
        }
    }
}

proof fn lemma_opaque_subcodecs(
    start: Seq<u8>,
    s: Seq<u8>,
    p: int,
    w: int,
    h: int,
    out: Seq<u8>,
)
    requires
        kept_or_opaque(start, out),
        0 <= p,
    ensures
        kept_or_opaque(start, subcodec::subcodec_layer(s, p, w, h, out).0),
    decreases s.len() - p,
{
    if p < s.len() && p + 13 <= s.len() && p + 13 + bytes::le32(s, p + 8) <= s.len() {
        let x = bytes::le16(s, p);
        let y = bytes::le16(s, p + 2);
        let sw = bytes::le16(s, p + 4);
        let sh = bytes::le16(s, p + 6);
        let size = bytes::le32(s, p + 8);
        let data = s.subrange(p + 13, p + 13 + size);
        let colors = if s[p + 12] == 0 {
            paint::bgr_to_rgba(data)
        } else {
            subcodec::rlex(data, sw * sh).0
        };
        if data.len() > 0 && 1 + 3 * data[0] <= data.len() {
            lemma_opaque_rlex(
                data,
                1 + 3 * data[0],
                subcodec::palette(data),
                Seq::empty(),
                sw * sh,
            );
        }
        lemma_opaque_paint(start, out, w, x, y, sw, colors);
        lemma_opaque_subcodecs(
            start,
            s,
            p + 13 + size,
            w,
            h,
            paint::paint(out, w, x, y, sw, colors),
        );
    }
}

proof fn lemma_opaque_composition(
    state: ClearState,
    src: Seq<u8>,
    p: int,
    w: int,
    h: int,
    out: Seq<u8>,
)
    requires
        state.wf(),
        opaque_bars(state.bars),
        0 <= h,
        0 <= p,
    ensures
        ({
            let o = decoder::composition(state, src, p, w, h, out);
            opaque_bars(o.state.bars) && kept_or_opaque(out, o.out)
        }),
{
    if p + 12 <= src.len() {
        let residual_size = bytes::le32(src, p);
        let bands_size = bytes::le32(src, p + 4);
        let bands_start = p + 12 + residual_size;
        let subcodec_start = bands_start + bands_size;
        let end = subcodec_start + bytes::le32(src, p + 8);
        let first = src.subrange(p + 12, bands_start);
        let colors = if residual_size > 0 {
            residual::residual_colors(first, 0, Seq::empty(), w * h).0
        } else {
            Seq::empty()
        };
        lemma_opaque_residual(first, 0, Seq::empty(), w * h);
        lemma_opaque_paint(out, out, w, 0, 0, w, colors);
        let a = paint::paint(out, w, 0, 0, w, colors);
        let second = src.subrange(bands_start, subcodec_start);
        lemma_opaque_bands(out, state.bars, second, 0, w, h, a);
        let u = if bands_size > 0 {
            bands::bands_layer(state.bars, second, 0, w, h, a).1
        } else {
            a
        };
        lemma_opaque_subcodecs(out, src.subrange(subcodec_start, end), 0, w, h, u);
    }
}

} // verus!
