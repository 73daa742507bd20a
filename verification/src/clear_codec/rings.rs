//! Where the bars that a stream makes are stored.

use crate::bytes;
use crate::clear_codec::bands::{Band, BarCaches};
use crate::clear_codec::decoder::{
    ClearState, FLAG_CACHE_RESET, FLAG_GLYPH_HIT, FLAG_GLYPH_INDEX, GLYPH_CACHE_SIZE,
};
use crate::clear_codec::{bands, decoder, paint, residual};
use vstd::arithmetic::div_mod::*;
use vstd::prelude::*;

verus! {

/// How many steps a ring of `n` entries takes from place `c` to place `j`.
pub open spec fn steps(c: int, j: int, n: int) -> int {
    if j >= c {
        j - c
    } else {
        j - c + n
    }
}

/// A ring that held `before`, with its cursor at `c`, has been filled with `stored`: it holds
/// `after`, with its cursor at `d`. The entries stand in order from `c` on, the last ones where
/// there were more than the ring has places, and the places that were not reached keep theirs.
pub open spec fn ring_filled(
    before: Seq<Seq<u8>>,
    c: int,
    after: Seq<Seq<u8>>,
    d: int,
    stored: Seq<Seq<u8>>,
) -> bool {
    let n = before.len() as int;
    &&& after.len() == n
    &&& d == (c + stored.len()) % n
    &&& forall|i: int|
        0 <= i < stored.len() && stored.len() <= i + n ==> after[(c + i) % n]
            == #[trigger] stored[i]
    &&& forall|j: int|
        0 <= j < n && stored.len() <= steps(c, j, n) ==> #[trigger] after[j] == before[j]
}

proof fn lemma_ring_untouched(before: Seq<Seq<u8>>, c: int)
    requires
        0 <= c < before.len(),
    ensures
        ring_filled(before, c, before, c, Seq::empty()),
{
    lemma_small_mod(c as nat, before.len());
}

proof fn lemma_ring_push(
    before: Seq<Seq<u8>>,
    c: int,
    after: Seq<Seq<u8>>,
    d: int,
    stored: Seq<Seq<u8>>,
    entry: Seq<u8>,
)
    requires
        0 <= c < before.len(),
        ring_filled(before, c, after, d, stored),
    ensures
        0 <= d < before.len(),
        ring_filled(
            before,
            c,
            after.update(d, entry),
            (d + 1) % (before.len() as int),
            stored.push(entry),
        ),
{
    let n = before.len() as int;
    let len = stored.len() as int;
    let more = stored.push(entry);
    let updated = after.update(d, entry);
    lemma_fundamental_div_mod(c + len, n);
    lemma_mod_bound(c + len, n);
    lemma_add_mod_noop_right(1, c + len, n);
    assert forall|i: int| 0 <= i < more.len() && more.len() <= i + n implies updated[(c + i) % n]
        == #[trigger] more[i] by {
        lemma_mod_bound(c + i, n);
        if i < len {
            assert(after[(c + i) % n] == stored[i]);
            lemma_fundamental_div_mod(c + i, n);
            let q = (c + i) / n;
            let r = (c + len) / n;
            if (c + i) % n == d {
                assert(len - i == n * (r - q)) by (nonlinear_arith)
                    requires
                        c + i == n * q + d,
                        c + len == n * r + d,
                ;
                assert(false) by (nonlinear_arith)
                    requires
                        len - i == n * (r - q),
                        0 < len - i < n,
                ;
            }
        }
    }
    assert forall|j: int| 0 <= j < n && more.len() <= steps(c, j, n) implies #[trigger] updated[j]
        == before[j] by {
        assert(after[j] == before[j]);
        if c + len < n {
            lemma_small_mod((c + len) as nat, n as nat);
        } else {
            lemma_fundamental_div_mod_converse(c + len, n, 1, c + len - n);
        }
        assert(j != d);
    }
}

/// The bars that a stream puts into the caches, in order: the composed ones and the short ones.
pub struct Stored {
    pub bars: Seq<Seq<u8>>,
    pub shorts: Seq<Seq<u8>>,
}

impl Stored {
    pub open spec fn nothing() -> Stored {
        Stored { bars: Seq::empty(), shorts: Seq::empty() }
    }
}

/// What has been stored once the bar at `p`, with `bar` for its pixels, has been read.
pub open spec fn stored_by_bar(done: Stored, s: Seq<u8>, p: int, bar: Seq<u8>) -> Stored {
    let header = bytes::le16(s, p);
    if header < 0x4000 {
        let count = header / 0x100 - header % 0x100;
        let raw = s.subrange(p + 2, p + 2 + 3 * count);
        Stored {
            bars: done.bars.push(bar),
            shorts: done.shorts.push(bands::flat(paint::bgr_to_rgba(raw))),
        }
    } else if header < 0x8000 {
        Stored { bars: done.bars.push(bar), ..done }
    } else {
        done
    }
}

/// What has been stored after the columns of a band from column `x` on.
pub open spec fn stored_by_columns(
    done: Stored,
    c: BarCaches,
    s: Seq<u8>,
    p: int,
    band: Band,
    x: int,
    w: int,
    h: int,
    out: Seq<u8>,
) -> Stored
    decreases band.x_end + 1 - x,
{
    if x > band.x_end {
        done
    } else {
        match bands::bar_at(c, s, p, band.background, band.height()) {
            Err(_) => done,
            Ok((next, used, bar)) => {
                let more = stored_by_bar(done, s, p, bar);
                let (painted, end) = bands::paint_bar(
                    out,
                    w,
                    h,
                    x,
                    band.y_start,
                    band.height(),
                    bar,
                );
                match end {
                    Err(_) => more,
                    Ok(_) => stored_by_columns(
                        more,
                        next,
                        s,
                        p + used,
                        band,
                        x + 1,
                        w,
                        h,
                        painted,
                    ),
                }
            },
        }
    }
}

/// What has been stored after the bands layer from `p` on.
pub open spec fn stored_by_bands(
    done: Stored,
    c: BarCaches,
    s: Seq<u8>,
    p: int,
    w: int,
    h: int,
    out: Seq<u8>,
) -> Stored
    decreases s.len() - p,
{
    let band = bands::band_at(s, p);
    if p + 11 > s.len() || band.x_end < band.x_start || band.y_end < band.y_start || band.height()
        > 52 {
        done
    } else {
        proof {
            bands::lemma_columns_advance(c, s, p + 11, band, band.x_start, w, h, out);
        }
        let columns = bands::band_columns(c, s, p + 11, band, band.x_start, w, h, out);
        let more = stored_by_columns(done, c, s, p + 11, band, band.x_start, w, h, out);
        match columns.2 {
            Err(_) => more,
            Ok(q) => stored_by_bands(more, columns.0, s, q, w, h, columns.1),
        }
    }
}

/// What is stored by the layers that start at `p` with the three byte counts.
pub open spec fn stored_by_composition(
    state: ClearState,
    src: Seq<u8>,
    p: int,
    w: int,
    h: int,
    out: Seq<u8>,
) -> Stored {
    let bands_start = p + 12 + bytes::le32(src, p);
    let subcodec_start = bands_start + bytes::le32(src, p + 4);
    if p + 12 > src.len() || subcodec_start > src.len() {
        Stored::nothing()
    } else {
        let residual = if bands_start > p + 12 {
            residual::residual_layer(src.subrange(p + 12, bands_start), w, h, out)
        } else {
            (out, Ok(()))
        };
        if residual.1 is Err {
            Stored::nothing()
        } else {
            stored_by_bands(
                Stored::nothing(),
                state.bars,
                src.subrange(bands_start, subcodec_start),
                0,
                w,
                h,
                residual.0,
            )
        }
    }
}

/// What is stored by a stream.
pub open spec fn stored_by_stream(
    state: ClearState,
    src: Seq<u8>,
    w: int,
    h: int,
    out: Seq<u8>,
) -> Stored {
    let begun = state.begin(src[0], src[1]);
    if src[0] & FLAG_GLYPH_HIT != 0 {
        Stored::nothing()
    } else if src[0] & FLAG_GLYPH_INDEX == 0 {
        stored_by_composition(begun, src, 2, w, h, out)
    } else if w * h > 1024 * 1024 || src.len() < 4 || bytes::le16(src, 2) >= GLYPH_CACHE_SIZE {
        Stored::nothing()
    } else {
        stored_by_composition(begun, src, 4, w, h, out)
    }
}

/// Both rings have been filled.
pub open spec fn caches_filled(before: BarCaches, after: BarCaches, stored: Stored) -> bool {
    &&& ring_filled(before.vbars, before.vbar_cursor, after.vbars, after.vbar_cursor, stored.bars)
    &&& ring_filled(
        before.shorts,
        before.short_cursor,
        after.shorts,
        after.short_cursor,
        stored.shorts,
    )
}

proof fn lemma_caches_untouched(c: BarCaches)
    requires
        c.wf(),
    ensures
        caches_filled(c, c, Stored::nothing()),
{
    lemma_ring_untouched(c.vbars, c.vbar_cursor);
    lemma_ring_untouched(c.shorts, c.short_cursor);
}

proof fn lemma_stored_by_bar(
    start: BarCaches,
    done: Stored,
    c: BarCaches,
    s: Seq<u8>,
    p: int,
    background: Seq<u8>,
    height: int,
)
    requires
        start.wf(),
        caches_filled(start, c, done),
    ensures
        bands::bar_at(c, s, p, background, height) matches Ok((next, _, bar)) ==> caches_filled(
            start,
            next,
            stored_by_bar(done, s, p, bar),
        ),
{
    if let Ok((next, used, bar)) = bands::bar_at(c, s, p, background, height) {
        let header = bytes::le16(s, p);
        lemma_ring_push(
            start.vbars,
            start.vbar_cursor,
            c.vbars,
            c.vbar_cursor,
            done.bars,
            bar,
        );
        if header < 0x4000 {
            let more = stored_by_bar(done, s, p, bar);
            assert(more.shorts.drop_last() =~= done.shorts);
            lemma_ring_push(
                start.shorts,
                start.short_cursor,
                c.shorts,
                c.short_cursor,
                done.shorts,
                more.shorts.last(),
            );
        }
    }
}

proof fn lemma_stored_by_columns(
    start: BarCaches,
    done: Stored,
    c: BarCaches,
    s: Seq<u8>,
    p: int,
    band: Band,
    x: int,
    w: int,
    h: int,
    out: Seq<u8>,
)
    requires
        start.wf(),
        caches_filled(start, c, done),
    ensures
        caches_filled(
            start,
            bands::band_columns(c, s, p, band, x, w, h, out).0,
            stored_by_columns(done, c, s, p, band, x, w, h, out),
        ),
    decreases band.x_end + 1 - x,
{
    if x <= band.x_end {
        lemma_stored_by_bar(start, done, c, s, p, band.background, band.height());
        if let Ok((next, used, bar)) = bands::bar_at(c, s, p, band.background, band.height()) {
            let more = stored_by_bar(done, s, p, bar);
            let (painted, end) = bands::paint_bar(out, w, h, x, band.y_start, band.height(), bar);
            lemma_stored_by_columns(start, more, next, s, p + used, band, x + 1, w, h, painted);
        }
    }
}

proof fn lemma_stored_by_bands(
    start: BarCaches,
    done: Stored,
    c: BarCaches,
    s: Seq<u8>,
    p: int,
    w: int,
    h: int,
    out: Seq<u8>,
)
    requires
        start.wf(),
        caches_filled(start, c, done),
    ensures
        caches_filled(
            start,
            bands::bands_layer(c, s, p, w, h, out).0,
            stored_by_bands(done, c, s, p, w, h, out),
        ),
    decreases s.len() - p,
{
    let band = bands::band_at(s, p);
    if p + 11 <= s.len() && band.x_start <= band.x_end && band.y_start <= band.y_end
        && band.height() <= 52 {
        bands::lemma_columns_advance(c, s, p + 11, band, band.x_start, w, h, out);
        lemma_stored_by_columns(start, done, c, s, p + 11, band, band.x_start, w, h, out);
        let columns = bands::band_columns(c, s, p + 11, band, band.x_start, w, h, out);
        let more = stored_by_columns(done, c, s, p + 11, band, band.x_start, w, h, out);
        if let Ok(q) = columns.2 {
            lemma_stored_by_bands(start, more, columns.0, s, q, w, h, columns.1);
        }
    }
}

proof fn lemma_stored_by_composition(
    state: ClearState,
    src: Seq<u8>,
    p: int,
    w: int,
    h: int,
    out: Seq<u8>,
)
    requires
        state.bars.wf(),
        0 <= p,
    ensures
        caches_filled(
            state.bars,
            decoder::composition(state, src, p, w, h, out).state.bars,
            stored_by_composition(state, src, p, w, h, out),
        ),
{
    lemma_caches_untouched(state.bars);
    let bands_start = p + 12 + bytes::le32(src, p);
    let subcodec_start = bands_start + bytes::le32(src, p + 4);
    if p + 12 <= src.len() && subcodec_start <= src.len() {
        let residual = if bands_start > p + 12 {
            residual::residual_layer(src.subrange(p + 12, bands_start), w, h, out)
        } else {
            (out, Ok(()))
        };
        lemma_stored_by_bands(
            state.bars,
            Stored::nothing(),
            state.bars,
            src.subrange(bands_start, subcodec_start),
            0,
            w,
            h,
            residual.0,
        );
    }
}

/// The bars that a stream makes stand in the caches in the order in which they were made, from
/// where the cursors stood, however the stream ends. After a reset, the first stands at the start
/// of its cache, the next one after it, and so on.
pub proof fn law_bars_are_stored_in_order(
    state: ClearState,
    src: Seq<u8>,
    w: int,
    h: int,
    out: Seq<u8>,
)
    requires
        state.wf(),
        src.len() >= 2,
        0 < w,
        0 < h,
        w * h <= 1024 * 1024 * 16,
        out.len() == w * h * 4,
    ensures
        ({
            let begun = state.begin(src[0], src[1]).bars;
            let stored = stored_by_stream(state, src, w, h, out);
            let after = decoder::clear_decode(state, src, w, h, out).state.bars;
            &&& caches_filled(begun, after, stored)
            &&& src[0] & FLAG_CACHE_RESET != 0 ==> {
                &&& begun.vbar_cursor == 0 && begun.short_cursor == 0
                &&& stored.bars.len() <= after.vbars.len() ==> after.vbars.take(
                    stored.bars.len() as int,
                ) == stored.bars
                &&& stored.shorts.len() <= after.shorts.len() ==> after.shorts.take(
                    stored.shorts.len() as int,
                ) == stored.shorts
            }
        }),
{
    let begun = state.begin(src[0], src[1]);
    lemma_caches_untouched(begun.bars);
    lemma_stored_by_composition(begun, src, 2, w, h, out);
    lemma_stored_by_composition(begun, src, 4, w, h, out);
    let stored = stored_by_stream(state, src, w, h, out);
    let after = decoder::clear_decode(state, src, w, h, out).state.bars;
    if src[0] & FLAG_CACHE_RESET != 0 {
        if stored.bars.len() <= after.vbars.len() {
            lemma_ring_from_start(
                begun.bars.vbars,
                after.vbars,
                after.vbar_cursor,
                stored.bars,
            );
        }
        if stored.shorts.len() <= after.shorts.len() {
            lemma_ring_from_start(
                begun.bars.shorts,
                after.shorts,
                after.short_cursor,
                stored.shorts,
            );
        }
    }
}

proof fn lemma_ring_from_start(
    before: Seq<Seq<u8>>,
    after: Seq<Seq<u8>>,
    d: int,
    stored: Seq<Seq<u8>>,
)
    requires
        ring_filled(before, 0, after, d, stored),
        stored.len() <= before.len(),
    ensures
        after.take(stored.len() as int) == stored,
{
    assert forall|i: int| 0 <= i < stored.len() implies after[i] == stored[i] by {
        lemma_small_mod(i as nat, before.len());
    }
    assert(after.take(stored.len() as int) =~= stored);
}

} // verus!
