//! What a column of a band shows.

use crate::bytes;
use crate::clear_codec::bands::{Band, BarCaches};
use crate::clear_codec::{bands, laws, paint, rectangles};
use vstd::prelude::*;

verus! {

/// The bytes of `s` from `p` on are an inline short bar: the BGR triplets `raw`, laid from row
/// `y_on` on.
pub open spec fn is_inline_short(s: Seq<u8>, p: int, raw: Seq<u8>, y_on: int) -> bool {
    &&& p + 2 + raw.len() == s.len()
    &&& s.skip(p + 2) == raw
    &&& 0 <= y_on < 0x100
    &&& y_on + raw.len() / 3 < 0x40
    &&& s[p] == y_on
    &&& s[p + 1] == y_on + raw.len() / 3
}

/// A cached short bar was made of the BGR triplets `raw`: it has their colors, red first, and is
/// opaque.
pub open spec fn holds_short(entry: Seq<u8>, raw: Seq<u8>) -> bool {
    &&& entry.len() == 4 * (raw.len() / 3)
    &&& forall|j: int|
        0 <= j < entry.len() ==> #[trigger] entry[j] == if j % 4 == 3 {
            0xFF
        } else {
            raw[3 * (j / 4) + 2 - j % 4]
        }
}

/// The bytes of `s` from `p` on name the place of a cached short bar, laid from row `y_on` on,
/// that was made of the BGR triplets `raw`.
pub open spec fn is_short_hit(c: BarCaches, s: Seq<u8>, p: int, raw: Seq<u8>, y_on: int) -> bool {
    &&& p + 3 == s.len()
    &&& 0x4000 <= rectangles::pair(s, p) < 0x8000
    &&& holds_short(c.shorts[rectangles::pair(s, p) - 0x4000], raw)
    &&& s[p + 2] == y_on
}

/// The rows of the band that a layer starts with.
pub open spec fn rows(s: Seq<u8>) -> int {
    rectangles::pair(s, 6) - rectangles::pair(s, 4) + 1
}

/// The background of the band that a layer starts with. On the wire it is blue first.
pub open spec fn background(s: Seq<u8>) -> Seq<u8> {
    seq![s[10], s[9], s[8], 0xFF]
}

/// The layer starts with a band of a single column inside the rectangle. The first four bytes give
/// the first and the last column, the next four the first and the last row.
pub open spec fn starts_single_column(s: Seq<u8>, w: int, h: int) -> bool {
    &&& s.len() >= 13
    &&& rectangles::pair(s, 0) == rectangles::pair(s, 2) < w
    &&& rectangles::pair(s, 4) <= rectangles::pair(s, 6) < h
    &&& rows(s) <= 52
}

/// The layer is a band of a single column inside the rectangle, with a bar that is coded in one
/// of the two ways.
pub open spec fn is_single_column(
    c: BarCaches,
    s: Seq<u8>,
    raw: Seq<u8>,
    y_on: int,
    w: int,
    h: int,
) -> bool {
    &&& starts_single_column(s, w, h)
    &&& raw.len() % 3 == 0
    &&& raw.len() <= 156
    &&& is_inline_short(s, 11, raw, y_on) || is_short_hit(c, s, 11, raw, y_on)
}

/// The color of row `y` of a bar: that of the short bar where it lies there, else the background.
pub open spec fn row_color(raw: Seq<u8>, y_on: int, background: Seq<u8>, y: int) -> Seq<u8> {
    let k = y - y_on;
    if 0 <= k < raw.len() / 3 {
        seq![raw[3 * k + 2], raw[3 * k + 1], raw[3 * k], 0xFF]
    } else {
        background
    }
}

/// A cached bar of the given height has the colors of its rows.
pub open spec fn holds_bar(
    entry: Seq<u8>,
    raw: Seq<u8>,
    y_on: int,
    background: Seq<u8>,
    height: int,
) -> bool {
    &&& entry.len() == 4 * height
    &&& forall|j: int|
        0 <= j < entry.len() ==> #[trigger] entry[j] == row_color(
            raw,
            y_on,
            background,
            j / 4,
        )[j % 4]
}

proof fn lemma_flat_holds(raw: Seq<u8>, entry: Seq<u8>)
    ensures
        holds_short(entry, raw) <==> entry == bands::flat(paint::bgr_to_rgba(raw)),
{
    let made = bands::flat(paint::bgr_to_rgba(raw));
    assert(holds_short(made, raw)) by {
        assert forall|j: int| 0 <= j < made.len() implies #[trigger] made[j] == if j % 4 == 3 {
            0xFF
        } else {
            raw[3 * (j / 4) + 2 - j % 4]
        } by {
            let k = j / 4;
            assert(made[j] == paint::bgr_to_rgba(raw)[k][j % 4]);
        }
    }
    if holds_short(entry, raw) {
        assert(entry =~= made);
    }
}

proof fn lemma_bar_holds(raw: Seq<u8>, y_on: int, background: Seq<u8>, height: int)
    requires
        0 <= height,
    ensures
        holds_bar(
            bands::compose_bar(background, bands::flat(paint::bgr_to_rgba(raw)), y_on, height),
            raw,
            y_on,
            background,
            height,
        ),
{
    let short = bands::flat(paint::bgr_to_rgba(raw));
    let bar = bands::compose_bar(background, short, y_on, height);
    assert forall|j: int| 0 <= j < bar.len() implies #[trigger] bar[j] == row_color(
        raw,
        y_on,
        background,
        j / 4,
    )[j % 4] by {
        let y = j / 4;
        if 0 <= y - y_on < raw.len() / 3 {
            let k = j - 4 * y_on;
            assert(k / 4 == y - y_on && k % 4 == j % 4);
            assert(short[k] == paint::bgr_to_rgba(raw)[k / 4][k % 4]);
        }
    }
}

/// A band of a single column is painted and stored, whether its short bar comes inline or from the
/// cache.
proof fn lemma_single_column(
    c: BarCaches,
    s: Seq<u8>,
    raw: Seq<u8>,
    y_on: int,
    w: int,
    h: int,
    out: Seq<u8>,
)
    requires
        is_single_column(c, s, raw, y_on, w, h),
    ensures
        ({
            let short = bands::flat(paint::bgr_to_rgba(raw));
            let bar = bands::compose_bar(background(s), short, y_on, rows(s));
            let end = bands::bands_layer(c, s, 0, w, h, out);
            &&& end.2 == Ok::<(), Seq<char>>(())
            &&& end.1 == paint::paint(
                out,
                w,
                rectangles::pair(s, 0),
                rectangles::pair(s, 4),
                1,
                paint::pixels(bar),
            )
            &&& end.0 == if is_inline_short(s, 11, raw, y_on) {
                c.store_short(short).store_bar(bar)
            } else {
                c.store_bar(bar)
            }
        }),
{
    let band = bands::band_at(s, 0);
    let short = bands::flat(paint::bgr_to_rgba(raw));
    let bar = bands::compose_bar(band.background, short, y_on, band.height());
    assert(band.background =~= background(s));
    let stored = if is_inline_short(s, 11, raw, y_on) {
        c.store_short(short).store_bar(bar)
    } else {
        c.store_bar(bar)
    };
    lemma_bar_of_column(c, s, raw, y_on, w, h);
    assert(paint::pixels(bar).take(band.height()) =~= paint::pixels(bar));
    lemma_one_column(c, s, w, h, out, stored, bar);
}

/// The bar of a single column.
proof fn lemma_bar_of_column(
    c: BarCaches,
    s: Seq<u8>,
    raw: Seq<u8>,
    y_on: int,
    w: int,
    h: int,
)
    requires
        is_single_column(c, s, raw, y_on, w, h),
    ensures
        ({
            let band = bands::band_at(s, 0);
            let short = bands::flat(paint::bgr_to_rgba(raw));
            let bar = bands::compose_bar(band.background, short, y_on, band.height());
            bands::bar_at(c, s, 11, band.background, band.height()) == Ok::<_, Seq<char>>(
                (
                    if is_inline_short(s, 11, raw, y_on) {
                        c.store_short(short).store_bar(bar)
                    } else {
                        c.store_bar(bar)
                    },
                    s.len() - 11,
                    bar,
                ),
            )
        }),
{
    let header = bytes::le16(s, 11);
    if is_inline_short(s, 11, raw, y_on) {
        let n = raw.len() as int / 3;
        assert(header % 0x100 == y_on && header / 0x100 == y_on + n && header / 0x4000 == 0);
        assert(3 * n == raw.len());
        assert(s.subrange(13, 13 + 3 * n) =~= s.skip(13));
    } else {
        assert(header / 0x4000 == 1 && header % 0x4000 == header - 0x4000);
        lemma_flat_holds(raw, c.shorts[header - 0x4000]);
    }
}

/// A band of a single column, once its bar is known.
proof fn lemma_one_column(
    c: BarCaches,
    s: Seq<u8>,
    w: int,
    h: int,
    out: Seq<u8>,
    stored: BarCaches,
    bar: Seq<u8>,
)
    requires
        starts_single_column(s, w, h),
        bands::bar_at(
            c,
            s,
            11,
            bands::band_at(s, 0).background,
            bands::band_at(s, 0).height(),
        ) == Ok::<_, Seq<char>>((stored, s.len() - 11, bar)),
    ensures
        ({
            let shown = bands::lesser(bar.len() as int / 4, rows(s));
            bands::bands_layer(c, s, 0, w, h, out) == (
                stored,
                paint::paint(
                    out,
                    w,
                    rectangles::pair(s, 0),
                    rectangles::pair(s, 4),
                    1,
                    paint::pixels(bar).take(shown),
                ),
                Ok::<(), Seq<char>>(()),
            )
        }),
{
    let band = bands::band_at(s, 0);
    let shown = bands::lesser(bar.len() as int / 4, rows(s));
    reveal_with_fuel(bands::band_columns, 2);
    reveal_with_fuel(bands::bands_layer, 2);
    let painted = paint::paint(
        out,
        w,
        band.x_start,
        band.y_start,
        1,
        paint::pixels(bar).take(shown),
    );
    assert(bands::paint_bar(out, w, h, band.x_start, band.y_start, band.height(), bar) == (
        painted,
        Ok::<(), Seq<char>>(()),
    ));
    assert(bands::band_columns(c, s, 11, band, band.x_start, w, h, out) == (
        stored,
        painted,
        Ok::<int, Seq<char>>(s.len() as int),
    ));
}

/// What a band of a single column does to a pixel `(px, py)` of the destination, whether its short
/// bar comes inline or from the cache: in the column, from the band's first row to its last, it
/// takes the color of its row, without what the short bar has beyond the last row; elsewhere it
/// stays.
pub proof fn law_single_column_shows_its_bar(
    c: BarCaches,
    s: Seq<u8>,
    raw: Seq<u8>,
    y_on: int,
    w: int,
    h: int,
    out: Seq<u8>,
    px: int,
    py: int,
    i: int,
)
    requires
        is_single_column(c, s, raw, y_on, w, h),
        out.len() == w * h * 4,
        0 <= px < w,
        0 <= py < h,
        0 <= i < 4,
    ensures
        ({
            let x = rectangles::pair(s, 0);
            let top = rectangles::pair(s, 4);
            let bottom = rectangles::pair(s, 6);
            let end = bands::bands_layer(c, s, 0, w, h, out);
            let at = 4 * (py * w + px) + i;
            &&& end.2 is Ok
            &&& end.1.len() == out.len()
            &&& end.1[at] == if px == x && top <= py <= bottom {
                row_color(raw, y_on, background(s), py - top)[i]
            } else {
                out[at]
            }
        }),
{
    let x = rectangles::pair(s, 0);
    let top = rectangles::pair(s, 4);
    let short = bands::flat(paint::bgr_to_rgba(raw));
    let bar = bands::compose_bar(background(s), short, y_on, rows(s));
    let colors = paint::pixels(bar);
    lemma_single_column(c, s, raw, y_on, w, h, out);
    lemma_bar_holds(raw, y_on, background(s), rows(s));
    paint::lemma_paint_len(out, w, x, top, 1, colors);
    laws::law_paint_sets_the_rectangle_only(
        out,
        w,
        h,
        x,
        top,
        1,
        rows(s),
        colors,
        px,
        py,
        i,
    );
    let y = py - top;
    if px == x && 0 <= y < rows(s) {
        let at = 4 * y + i;
        assert(colors[y][i] == bar[at]);
        assert(at / 4 == y && at % 4 == i);
    }
}

/// What a band of a single column leaves in the caches: its bar, in full height, at the cursor of
/// the bars, and a short bar that came inline at the cursor of the short ones. Nothing else
/// changes, and the cursors go on to the next place, at the end to the first.
pub proof fn law_single_column_is_cached(
    c: BarCaches,
    s: Seq<u8>,
    raw: Seq<u8>,
    y_on: int,
    w: int,
    h: int,
    out: Seq<u8>,
)
    requires
        c.wf(),
        is_single_column(c, s, raw, y_on, w, h),
    ensures
        ({
            let after = bands::bands_layer(c, s, 0, w, h, out).0;
            &&& after.vbars.len() == 32768
            &&& after.shorts.len() == 16384
            &&& holds_bar(after.vbars[c.vbar_cursor], raw, y_on, background(s), rows(s))
            &&& after.vbar_cursor == if c.vbar_cursor == 32767 {
                0
            } else {
                c.vbar_cursor + 1
            }
            &&& forall|j: int|
                0 <= j < 32768 && j != c.vbar_cursor ==> #[trigger] after.vbars[j] == c.vbars[j]
            &&& if is_inline_short(s, 11, raw, y_on) {
                &&& holds_short(after.shorts[c.short_cursor], raw)
                &&& after.short_cursor == if c.short_cursor == 16383 {
                    0
                } else {
                    c.short_cursor + 1
                }
                &&& forall|j: int|
                    0 <= j < 16384 && j != c.short_cursor ==> #[trigger] after.shorts[j]
                        == c.shorts[j]
            } else {
                after.shorts == c.shorts && after.short_cursor == c.short_cursor
            }
        }),
{
    lemma_single_column(c, s, raw, y_on, w, h, out);
    lemma_bar_holds(raw, y_on, background(s), rows(s));
    lemma_flat_holds(raw, bands::flat(paint::bgr_to_rgba(raw)));
}

/// A band of a single column whose bar comes whole from the cache shows the cached rows, cut to the
/// height of the band, and leaves the caches as they are.
pub proof fn law_cached_bar_is_shown(
    c: BarCaches,
    s: Seq<u8>,
    w: int,
    h: int,
    out: Seq<u8>,
    px: int,
    py: int,
    i: int,
)
    requires
        c.wf(),
        starts_single_column(s, w, h),
        s.len() == 13,
        rectangles::pair(s, 11) >= 0x8000,
        out.len() == w * h * 4,
        0 <= px < w,
        0 <= py < h,
        0 <= i < 4,
    ensures
        ({
            let entry = c.vbars[rectangles::pair(s, 11) - 0x8000];
            let end = bands::bands_layer(c, s, 0, w, h, out);
            let y = py - rectangles::pair(s, 4);
            let at = 4 * (py * w + px) + i;
            &&& end.2 is Ok
            &&& end.0 == c
            &&& end.1.len() == out.len()
            &&& end.1[at] == if px == rectangles::pair(s, 0) && 0 <= y < rows(s) && 4 * y
                < entry.len() {
                entry[4 * y + i]
            } else {
                out[at]
            }
        }),
{
    let header = bytes::le16(s, 11);
    assert(header % 0x8000 == header - 0x8000 && header / 0x4000 >= 2);
    let entry = c.vbars[header - 0x8000];
    assert(bands::is_bar(entry));
    lemma_one_column(c, s, w, h, out, c, entry);
    let x = rectangles::pair(s, 0);
    let top = rectangles::pair(s, 4);
    let shown = bands::lesser(entry.len() as int / 4, rows(s));
    let colors = paint::pixels(entry).take(shown);
    paint::lemma_paint_len(out, w, x, top, 1, colors);
    laws::law_paint_sets_the_rectangle_only(
        out,
        w,
        h,
        x,
        top,
        1,
        rows(s),
        colors,
        px,
        py,
        i,
    );
    let y = py - top;
    if px == x && 0 <= y < shown {
        assert(colors[y] == entry.subrange(4 * y, 4 * y + 4));
    }
}

/// A short bar paints the same inline as from the cache.
pub proof fn law_short_bar_codings_paint_alike(
    c: BarCaches,
    s: Seq<u8>,
    d: BarCaches,
    t: Seq<u8>,
    raw: Seq<u8>,
    y_on: int,
    w: int,
    h: int,
    out: Seq<u8>,
)
    requires
        is_single_column(c, s, raw, y_on, w, h),
        is_single_column(d, t, raw, y_on, w, h),
        s.take(11) == t.take(11),
    ensures
        bands::bands_layer(c, s, 0, w, h, out).1 == bands::bands_layer(d, t, 0, w, h, out).1,
        bands::bands_layer(c, s, 0, w, h, out).2 == bands::bands_layer(d, t, 0, w, h, out).2,
{
    lemma_single_column(c, s, raw, y_on, w, h, out);
    lemma_single_column(d, t, raw, y_on, w, h, out);
    assert forall|i: int| 0 <= i < 11 implies s[i] == t[i] by {
        assert(s[i] == s.take(11)[i]);
        assert(t[i] == t.take(11)[i]);
    }
}

/// A band of a single column that lies to the right of the rectangle paints nothing, and is
/// refused.
/// One that reaches below it paints the rows that lie inside. It is refused, unless it starts at
/// the top: then it is cut.
pub proof fn law_column_that_does_not_fit(
    c: BarCaches,
    s: Seq<u8>,
    raw: Seq<u8>,
    y_on: int,
    w: int,
    h: int,
    out: Seq<u8>,
    px: int,
    py: int,
    i: int,
)
    requires
        is_single_column(c, s, raw, y_on, rectangles::pair(s, 0) + 1, rectangles::pair(s, 6) + 1),
        rectangles::pair(s, 0) >= w || rectangles::pair(s, 6) >= h,
        out.len() == w * h * 4,
        0 <= px < w,
        0 <= py < h,
        0 <= i < 4,
    ensures
        ({
            let x = rectangles::pair(s, 0);
            let top = rectangles::pair(s, 4);
            let end = bands::bands_layer(c, s, 0, w, h, out);
            let at = 4 * (py * w + px) + i;
            &&& end.2 is Ok <==> x < w && top == 0
            &&& end.2 is Err ==> end.2->Err_0 == if x >= w {
                "band column outside rect"@
            } else {
                "band row outside rect"@
            }
            &&& end.1.len() == out.len()
            &&& end.1[at] == if px == x && top <= py {
                row_color(raw, y_on, background(s), py - top)[i]
            } else {
                out[at]
            }
        }),
{
    let x = rectangles::pair(s, 0);
    let top = rectangles::pair(s, 4);
    let band = bands::band_at(s, 0);
    let short = bands::flat(paint::bgr_to_rgba(raw));
    let bar = bands::compose_bar(band.background, short, y_on, band.height());
    assert(band.background =~= background(s));
    lemma_bar_of_column(c, s, raw, y_on, x + 1, rectangles::pair(s, 6) + 1);
    lemma_bar_holds(raw, y_on, background(s), rows(s));
    reveal_with_fuel(bands::band_columns, 2);
    reveal_with_fuel(bands::bands_layer, 2);
    let fit = bands::lesser(rows(s), h);
    let inside = if top < h {
        h - top
    } else {
        0
    };
    let shown = bands::lesser(fit, inside);
    let colors = paint::pixels(bar).take(shown);
    paint::lemma_paint_len(out, w, x, top, 1, colors);
    assert(bands::paint_bar(out, w, h, x, top, rows(s), bar).0 == if x < w {
        paint::paint(out, w, x, top, 1, colors)
    } else {
        out
    });
    if x < w {
        let y = py - top;
        laws::law_paint_sets_the_rectangle_only(
            out,
            w,
            h,
            x,
            if top < h {
                top
            } else {
                0
            },
            1,
            inside,
            colors,
            px,
            py,
            i,
        );
        if px == x && 0 <= y < shown {
            let at = 4 * y + i;
            assert(colors[y][i] == bar[at]);
            assert(at / 4 == y && at % 4 == i);
        }
        if top >= h {
            assert(colors =~= Seq::empty());
        }
    }
}

/// A band is refused, and nothing is painted or cached, where it ends before it starts or is too
/// high, or where its header is not all there.
pub proof fn law_band_is_refused(c: BarCaches, s: Seq<u8>, w: int, h: int, out: Seq<u8>)
    requires
        0 < s.len() < 11 || s.len() >= 11 && (rectangles::pair(s, 2) < rectangles::pair(s, 0)
            || rectangles::pair(s, 6) < rectangles::pair(s, 4) || rows(s) > 52),
    ensures
        bands::bands_layer(c, s, 0, w, h, out).0 == c,
        bands::bands_layer(c, s, 0, w, h, out).1 == out,
        bands::bands_layer(c, s, 0, w, h, out).2 is Err,
{
}

/// How many bytes the bar at `p` takes: the place of a cached bar takes two, that of a cached short
/// bar and its first row three, and an inline short bar its first row, the row behind its last one,
/// and its pixels.
pub open spec fn bar_size(s: Seq<u8>, p: int) -> int {
    if s[p + 1] >= 0x80 {
        2
    } else if s[p + 1] >= 0x40 {
        3
    } else {
        2 + 3 * (s[p + 1] - s[p])
    }
}

proof fn lemma_same_behind(s: Seq<u8>, p: int, t: Seq<u8>, q: int)
    requires
        0 <= p <= s.len(),
        0 <= q <= t.len(),
        s.skip(p) == t.skip(q),
    ensures
        s.len() - p == t.len() - q,
        forall|i: int| 0 <= i < s.len() - p ==> #[trigger] s[p + i] == t[q + i],
{
    assert(s.skip(p).len() == s.len() - p);
    assert(t.skip(q).len() == t.len() - q);
    assert forall|i: int| 0 <= i < s.len() - p implies #[trigger] s[p + i] == t[q + i] by {
        assert(s.skip(p)[i] == s[p + i]);
        assert(t.skip(q)[i] == t[q + i]);
    }
}

proof fn lemma_bar_suffix(
    c: BarCaches,
    s: Seq<u8>,
    p: int,
    t: Seq<u8>,
    q: int,
    background: Seq<u8>,
    height: int,
)
    requires
        0 <= p <= s.len(),
        0 <= q <= t.len(),
        s.skip(p) == t.skip(q),
    ensures
        bands::bar_at(c, s, p, background, height) == bands::bar_at(c, t, q, background, height),
{
    lemma_same_behind(s, p, t, q);
    if p + 2 <= s.len() {
        assert(s[p + 0] == t[q + 0] && s[p + 1] == t[q + 1]);
        let header = bytes::le16(s, p);
        assert(header == bytes::le16(t, q));
        if p + 3 <= s.len() {
            assert(s[p + 2] == t[q + 2]);
        }
        let count = header / 0x100 - header % 0x100;
        if 0 <= count && p + 2 + 3 * count <= s.len() {
            let n = 3 * count;
            let a = s.subrange(p + 2, p + 2 + n);
            let b = t.subrange(q + 2, q + 2 + n);
            assert forall|i: int| 0 <= i < n implies a[i] == b[i] by {
                assert(a[i] == s[p + (2 + i)]);
                assert(b[i] == t[q + (2 + i)]);
            }
            assert(a =~= b);
        }
    }
}

proof fn lemma_bar_takes(c: BarCaches, s: Seq<u8>, p: int, background: Seq<u8>, height: int)
    requires
        0 <= p <= s.len(),
    ensures
        bands::bar_at(c, s, p, background, height) matches Ok((_, used, _)) ==> 2 <= used && p
            + used <= s.len(),
{
}

/// Two bands that differ in their first column at most.
spec fn same_strip(a: Band, b: Band) -> bool {
    &&& a.x_end == b.x_end
    &&& a.y_start == b.y_start
    &&& a.y_end == b.y_end
    &&& a.background == b.background
}

proof fn lemma_columns_suffix(
    c: BarCaches,
    s: Seq<u8>,
    p: int,
    t: Seq<u8>,
    q: int,
    a: Band,
    b: Band,
    x: int,
    w: int,
    h: int,
    out: Seq<u8>,
)
    requires
        0 <= p <= s.len(),
        0 <= q <= t.len(),
        s.skip(p) == t.skip(q),
        same_strip(a, b),
    ensures
        ({
            let u = bands::band_columns(c, s, p, a, x, w, h, out);
            let v = bands::band_columns(c, t, q, b, x, w, h, out);
            &&& u.0 == v.0
            &&& u.1 == v.1
            &&& match u.2 {
                Ok(end) => v.2 == Ok::<int, Seq<char>>(end - p + q) && p <= end <= s.len()
                    && s.skip(end) == t.skip(end - p + q),
                Err(message) => v.2 == Err::<int, Seq<char>>(message),
            }
        }),
    decreases a.x_end + 1 - x,
{
    if x <= a.x_end {
        lemma_bar_suffix(c, s, p, t, q, a.background, a.height());
        lemma_bar_takes(c, s, p, a.background, a.height());
        if let Ok((next, used, bar)) = bands::bar_at(c, s, p, a.background, a.height()) {
            let (painted, end) = bands::paint_bar(out, w, h, x, a.y_start, a.height(), bar);
            lemma_same_behind(s, p, t, q);
            assert(s.skip(p + used) =~= s.skip(p).skip(used));
            assert(t.skip(q + used) =~= t.skip(q).skip(used));
            lemma_columns_suffix(
                next,
                s,
                p + used,
                t,
                q + used,
                a,
                b,
                x + 1,
                w,
                h,
                painted,
            );
        }
    }
}

proof fn lemma_bands_suffix(
    c: BarCaches,
    s: Seq<u8>,
    p: int,
    t: Seq<u8>,
    q: int,
    w: int,
    h: int,
    out: Seq<u8>,
)
    requires
        0 <= p <= s.len(),
        0 <= q <= t.len(),
        s.skip(p) == t.skip(q),
    ensures
        bands::bands_layer(c, s, p, w, h, out) == bands::bands_layer(c, t, q, w, h, out),
    decreases s.len() - p,
{
    lemma_same_behind(s, p, t, q);
    if p + 11 <= s.len() {
        assert(s[p + 0] == t[q + 0] && s[p + 1] == t[q + 1] && s[p + 2] == t[q + 2] && s[p + 3]
            == t[q + 3] && s[p + 4] == t[q + 4] && s[p + 5] == t[q + 5] && s[p + 6] == t[q + 6]
            && s[p + 7] == t[q + 7] && s[p + 8] == t[q + 8] && s[p + 9] == t[q + 9] && s[p + 10]
            == t[q + 10]);
        let band = bands::band_at(s, p);
        assert(band == bands::band_at(t, q));
        assert(s.skip(p + 11) =~= s.skip(p).skip(11));
        assert(t.skip(q + 11) =~= t.skip(q).skip(11));
        if band.x_start <= band.x_end && band.y_start <= band.y_end && band.height() <= 52 {
            lemma_columns_suffix(
                c,
                s,
                p + 11,
                t,
                q + 11,
                band,
                band,
                band.x_start,
                w,
                h,
                out,
            );
            let columns = bands::band_columns(c, s, p + 11, band, band.x_start, w, h, out);
            if let Ok(end) = columns.2 {
                lemma_bands_suffix(columns.0, s, end, t, end - p + q, w, h, columns.1);
            }
        }
    }
}

/// The layer whose first band has been cut in two: its first column by itself, and the others.
pub open spec fn first_column_apart(s: Seq<u8>) -> Seq<u8> {
    let x = rectangles::pair(s, 0) + 1;
    let used = bar_size(s, 11);
    seq![s[0], s[1], s[0], s[1]] + s.subrange(4, 11 + used) + seq![
        (x % 0x100) as u8,
        (x / 0x100) as u8,
    ] + s.subrange(2, 11) + s.skip(11 + used)
}

/// The columns of a band can come one by one: a band does what a band of its first column and a
/// band of the others do one after the other. The columns of a band thus stand side by side, from
/// its first one on, and their bars in that order.
pub proof fn law_columns_can_come_one_by_one(
    c: BarCaches,
    s: Seq<u8>,
    w: int,
    h: int,
    out: Seq<u8>,
)
    requires
        s.len() >= 13,
        rectangles::pair(s, 0) < rectangles::pair(s, 2),
        rectangles::pair(s, 4) <= rectangles::pair(s, 6),
        rows(s) <= 52,
        2 <= bar_size(s, 11) <= 158,
        11 + bar_size(s, 11) <= s.len(),
    ensures
        bands::bands_layer(c, s, 0, w, h, out) == bands::bands_layer(
            c,
            first_column_apart(s),
            0,
            w,
            h,
            out,
        ),
{
    let x = rectangles::pair(s, 0);
    let t = first_column_apart(s);
    let m = 11 + bar_size(s, 11);
    let band = bands::band_at(s, 0);
    let first = bands::band_at(t, 0);
    let second = bands::band_at(t, m);
    lemma_apart(c, s);
    let bar = bands::bar_at(c, s, 11, band.background, band.height())->Ok_0;
    let (painted, end) = bands::paint_bar(out, w, h, x, band.y_start, band.height(), bar.2);
    lemma_first_column(c, t, 11, first, x, w, h, out);
    assert(bands::band_columns(c, s, 11, band, x, w, h, out) == match end {
        Err(message) => (bar.0, painted, Err(message)),
        Ok(_) => bands::band_columns(bar.0, s, m, band, x + 1, w, h, painted),
    });
    if end is Ok {
        lemma_columns_suffix(bar.0, s, m, t, m + 11, band, second, x + 1, w, h, painted);
        let rest = bands::band_columns(bar.0, s, m, band, x + 1, w, h, painted);
        if let Ok(q) = rest.2 {
            lemma_bands_suffix(rest.0, s, q, t, q + 11, w, h, rest.1);
        }
        assert(bands::bands_layer(c, t, 0, w, h, out) == bands::bands_layer(
            bar.0,
            t,
            m,
            w,
            h,
            painted,
        ));
    }
}

/// A band of a single column, with more behind it.
proof fn lemma_first_column(
    c: BarCaches,
    t: Seq<u8>,
    p: int,
    band: Band,
    x: int,
    w: int,
    h: int,
    out: Seq<u8>,
)
    requires
        band.x_end == x,
        bands::bar_at(c, t, p, band.background, band.height()) is Ok,
    ensures
        ({
            let bar = bands::bar_at(c, t, p, band.background, band.height())->Ok_0;
            let (painted, end) = bands::paint_bar(
                out,
                w,
                h,
                x,
                band.y_start,
                band.height(),
                bar.2,
            );
            bands::band_columns(c, t, p, band, x, w, h, out) == match end {
                Err(message) => (bar.0, painted, Err(message)),
                Ok(_) => (bar.0, painted, Ok::<int, Seq<char>>(p + bar.1)),
            }
        }),
{
    reveal_with_fuel(bands::band_columns, 2);
}

/// The two bands that a band has been cut into.
proof fn lemma_apart(c: BarCaches, s: Seq<u8>)
    requires
        s.len() >= 13,
        rectangles::pair(s, 0) < rectangles::pair(s, 2),
        2 <= bar_size(s, 11) <= 158,
        11 + bar_size(s, 11) <= s.len(),
    ensures
        ({
            let x = rectangles::pair(s, 0);
            let t = first_column_apart(s);
            let m = 11 + bar_size(s, 11);
            let band = bands::band_at(s, 0);
            let first = bands::band_at(t, 0);
            let second = bands::band_at(t, m);
            let bar = bands::bar_at(c, s, 11, band.background, band.height());
            &&& t.len() == s.len() + 11
            &&& first == (Band { x_end: x, ..band })
            &&& second.x_start == x + 1
            &&& same_strip(band, second)
            &&& t.skip(m + 11) == s.skip(m)
            &&& bar is Ok && bar->Ok_0.1 == m - 11
            &&& bands::bar_at(c, t, 11, band.background, band.height()) == bar
        }),
{
    let x = rectangles::pair(s, 0);
    let used = bar_size(s, 11);
    let t = first_column_apart(s);
    let m = 11 + used;
    assert(t.len() == s.len() + 11);
    assert(t[0] == s[0] && t[1] == s[1] && t[2] == s[0] && t[3] == s[1] && t[4] == s[4] && t[5]
        == s[5] && t[6] == s[6] && t[7] == s[7] && t[8] == s[8] && t[9] == s[9] && t[10] == s[10]);
    let header = bytes::le16(s, 11);
    assert(t[11] == s[11] && t[12] == s[12]);
    assert(header / 0x100 == s[12] && header % 0x100 == s[11]);
    assert(used >= 3 ==> t[13] == s[13]);
    assert(s.subrange(13, m) =~= t.subrange(13, m));
    assert(t[m] == ((x + 1) % 0x100) as u8 && t[m + 1] == ((x + 1) / 0x100) as u8);
    assert(t[m + 2] == s[2] && t[m + 3] == s[3] && t[m + 4] == s[4] && t[m + 5] == s[5] && t[m + 6]
        == s[6] && t[m + 7] == s[7] && t[m + 8] == s[8] && t[m + 9] == s[9] && t[m + 10] == s[10]);
    assert(t.skip(m + 11) =~= s.skip(m));
}

proof fn lemma_bar_prefix(
    c: BarCaches,
    a: Seq<u8>,
    b: Seq<u8>,
    p: int,
    background: Seq<u8>,
    height: int,
)
    requires
        0 <= p <= a.len(),
        bands::bar_at(c, a, p, background, height) is Ok,
    ensures
        bands::bar_at(c, a + b, p, background, height) == bands::bar_at(
            c,
            a,
            p,
            background,
            height,
        ),
{
    let s = a + b;
    let header = bytes::le16(a, p);
    assert(s[p] == a[p] && s[p + 1] == a[p + 1]);
    assert(bytes::le16(s, p) == header);
    let count = header / 0x100 - header % 0x100;
    if header / 0x4000 == 0 {
        assert(s.subrange(p + 2, p + 2 + 3 * count) =~= a.subrange(p + 2, p + 2 + 3 * count));
    }
}

proof fn lemma_columns_prefix(
    c: BarCaches,
    a: Seq<u8>,
    b: Seq<u8>,
    p: int,
    band: Band,
    x: int,
    w: int,
    h: int,
    out: Seq<u8>,
)
    requires
        0 <= p <= a.len(),
        bands::band_columns(c, a, p, band, x, w, h, out).2 is Ok,
    ensures
        bands::band_columns(c, a + b, p, band, x, w, h, out) == bands::band_columns(
            c,
            a,
            p,
            band,
            x,
            w,
            h,
            out,
        ),
    decreases band.x_end + 1 - x,
{
    if x <= band.x_end {
        lemma_bar_prefix(c, a, b, p, band.background, band.height());
        lemma_bar_takes(c, a, p, band.background, band.height());
        let (next, used, bar) = bands::bar_at(c, a, p, band.background, band.height())->Ok_0;
        let (painted, end) = bands::paint_bar(out, w, h, x, band.y_start, band.height(), bar);
        lemma_columns_prefix(next, a, b, p + used, band, x + 1, w, h, painted);
    }
}

proof fn lemma_bands_then(
    c: BarCaches,
    a: Seq<u8>,
    b: Seq<u8>,
    p: int,
    w: int,
    h: int,
    out: Seq<u8>,
)
    requires
        0 <= p <= a.len(),
        bands::bands_layer(c, a, p, w, h, out).2 is Ok,
    ensures
        ({
            let first = bands::bands_layer(c, a, p, w, h, out);
            bands::bands_layer(c, a + b, p, w, h, out) == bands::bands_layer(
                first.0,
                b,
                0,
                w,
                h,
                first.1,
            )
        }),
    decreases a.len() - p,
{
    let s = a + b;
    if p == a.len() {
        assert(s.skip(p) =~= b.skip(0));
        lemma_bands_suffix(c, s, p, b, 0, w, h, out);
    } else {
        assert(s[p] == a[p] && s[p + 1] == a[p + 1] && s[p + 2] == a[p + 2] && s[p + 3] == a[p + 3]
            && s[p + 4] == a[p + 4] && s[p + 5] == a[p + 5] && s[p + 6] == a[p + 6]);
        assert(s[p + 7] == a[p + 7] && s[p + 8] == a[p + 8] && s[p + 9] == a[p + 9] && s[p + 10]
            == a[p + 10]);
        let band = bands::band_at(a, p);
        assert(band == bands::band_at(s, p));
        bands::lemma_columns_advance(c, a, p + 11, band, band.x_start, w, h, out);
        lemma_columns_prefix(c, a, b, p + 11, band, band.x_start, w, h, out);
        let columns = bands::band_columns(c, a, p + 11, band, band.x_start, w, h, out);
        lemma_bands_then(columns.0, a, b, columns.2->Ok_0, w, h, columns.1);
    }
}

/// Bands are painted in turn: a layer that ends well, with more behind it, does what the two parts
/// do one after the other. A layer without bytes does nothing.
pub proof fn law_bands_come_in_turn(
    c: BarCaches,
    a: Seq<u8>,
    b: Seq<u8>,
    w: int,
    h: int,
    out: Seq<u8>,
)
    requires
        bands::bands_layer(c, a, 0, w, h, out).2 is Ok,
    ensures
        ({
            let first = bands::bands_layer(c, a, 0, w, h, out);
            bands::bands_layer(c, a + b, 0, w, h, out) == bands::bands_layer(
                first.0,
                b,
                0,
                w,
                h,
                first.1,
            )
        }),
        bands::bands_layer(c, Seq::empty(), 0, w, h, out) == (c, out, Ok::<(), Seq<char>>(())),
{
    lemma_bands_then(c, a, b, 0, w, h, out);
}

} // verus!
