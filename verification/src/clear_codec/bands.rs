//! The bands layer: strips of vertical bars that are composed from a background color and a
//! cached or inline segment, the short bar.

use crate::bytes;
use crate::clear_codec::paint;
use crate::clear_codec::paint::set_pixel;
use crate::clear_codec::reader::{ClearDecodeError, ClearResult};
use vstd::prelude::*;

verus! {

/// How many composed bars are cached.
pub const VBAR_CACHE_SIZE: usize = 32768;

/// How many short bars are cached.
pub const SHORT_VBAR_CACHE_SIZE: usize = 16384;

/// The two bar caches. Each is a ring that is filled at its cursor.
pub struct BarCaches {
    pub vbars: Seq<Seq<u8>>,
    pub vbar_cursor: int,
    pub shorts: Seq<Seq<u8>>,
    pub short_cursor: int,
}

/// Whole pixels, 52 at most.
pub open spec fn is_bar(bar: Seq<u8>) -> bool {
    bar.len() % 4 == 0 && bar.len() <= 208
}

impl BarCaches {
    /// The caches have their sizes, the cursors lie inside, and the entries are bars.
    pub open spec fn wf(self) -> bool {
        &&& self.vbars.len() == VBAR_CACHE_SIZE
        &&& self.shorts.len() == SHORT_VBAR_CACHE_SIZE
        &&& 0 <= self.vbar_cursor < VBAR_CACHE_SIZE
        &&& 0 <= self.short_cursor < SHORT_VBAR_CACHE_SIZE
        &&& forall|i: int| 0 <= i < self.vbars.len() ==> is_bar(#[trigger] self.vbars[i])
        &&& forall|i: int| 0 <= i < self.shorts.len() ==> is_bar(#[trigger] self.shorts[i])
    }

    /// The caches after a composed bar has been stored.
    pub open spec fn store_bar(self, bar: Seq<u8>) -> BarCaches {
        BarCaches {
            vbars: self.vbars.update(self.vbar_cursor, bar),
            vbar_cursor: (self.vbar_cursor + 1) % (VBAR_CACHE_SIZE as int),
            ..self
        }
    }

    /// The caches after a short bar has been stored.
    pub open spec fn store_short(self, short: Seq<u8>) -> BarCaches {
        BarCaches {
            shorts: self.shorts.update(self.short_cursor, short),
            short_cursor: (self.short_cursor + 1) % (SHORT_VBAR_CACHE_SIZE as int),
            ..self
        }
    }
}

/// Colors as flat RGBA bytes.
pub open spec fn flat(colors: Seq<Seq<u8>>) -> Seq<u8> {
    Seq::new(4 * colors.len(), |i: int| colors[i / 4][i % 4])
}

/// A bar of `height` pixels: the background, with the short bar laid over it from row `y_on` on.
pub open spec fn compose_bar(background: Seq<u8>, short: Seq<u8>, y_on: int, height: int) -> Seq<
    u8,
> {
    Seq::new(
        (4 * height) as nat,
        |i: int|
            if y_on <= i / 4 < y_on + short.len() / 4 {
                short[i - 4 * y_on]
            } else {
                background[i % 4]
            },
    )
}

/// The bar that is encoded at `p` in a band of the given height and background: the caches after
/// it, the number of its bytes, and its pixels.
pub open spec fn bar_at(
    c: BarCaches,
    s: Seq<u8>,
    p: int,
    background: Seq<u8>,
    height: int,
) -> Result<(BarCaches, int, Seq<u8>), Seq<char>> {
    if p + 2 > s.len() {
        Err("stream underrun"@)
    } else {
        let header = bytes::le16(s, p);
        if header / 0x4000 == 1 {
            // A cached short bar, by its index.
            if p + 3 > s.len() {
                Err("stream underrun"@)
            } else {
                let bar = compose_bar(
                    background,
                    c.shorts[header % 0x4000],
                    s[p + 2] as int,
                    height,
                );
                Ok((c.store_bar(bar), 3, bar))
            }
        } else if header / 0x4000 == 0 {
            // An inline short bar, cached for later.
            let y_on = header % 0x100;
            let y_off = header / 0x100;
            let count = y_off - y_on;
            if count < 0 {
                Err("short vBar yOff < yOn"@)
            } else if count > 52 {
                Err("short vBar pixel count > 52"@)
            } else if p + 2 + 3 * count > s.len() {
                Err("stream underrun"@)
            } else {
                let short = flat(paint::bgr_to_rgba(s.subrange(p + 2, p + 2 + 3 * count)));
                let bar = compose_bar(background, short, y_on, height);
                Ok((c.store_short(short).store_bar(bar), 2 + 3 * count, bar))
            }
        } else {
            // A cached bar, by its index.
            Ok((c, 2, c.vbars[header % 0x8000]))
        }
    }
}

/// The smaller of two numbers.
pub open spec fn lesser(a: int, b: int) -> int {
    if a <= b {
        a
    } else {
        b
    }
}

/// The buffer after a bar has been painted into column `x` from row `y` on, and how that ends. The
/// bar is cut to the band's height and to the height of the rectangle.
pub open spec fn paint_bar(
    out: Seq<u8>,
    w: int,
    h: int,
    x: int,
    y: int,
    height: int,
    bar: Seq<u8>,
) -> (Seq<u8>, Result<(), Seq<char>>) {
    let rows = lesser(lesser(bar.len() as int / 4, height), h);
    let inside = if y < h {
        h - y
    } else {
        0
    };
    if x >= w {
        (out, Err("band column outside rect"@))
    } else if rows > inside {
        (
            paint::paint(out, w, x, y, 1, paint::pixels(bar).take(inside)),
            Err("band row outside rect"@),
        )
    } else {
        (paint::paint(out, w, x, y, 1, paint::pixels(bar).take(rows)), Ok(()))
    }
}

/// The header of a band.
pub struct Band {
    pub x_start: int,
    pub x_end: int,
    pub y_start: int,
    pub y_end: int,
    pub background: Seq<u8>,
}

impl Band {
    /// The height of its bars.
    pub open spec fn height(self) -> int {
        self.y_end - self.y_start + 1
    }
}

/// The band header at `p`.
pub open spec fn band_at(s: Seq<u8>, p: int) -> Band {
    Band {
        x_start: bytes::le16(s, p),
        x_end: bytes::le16(s, p + 2),
        y_start: bytes::le16(s, p + 4),
        y_end: bytes::le16(s, p + 6),
        background: paint::rgba(s[p + 10], s[p + 9], s[p + 8]),
    }
}

/// The outcome of the columns of a band from column `x` on, with the bars at `p`: the caches, the
/// buffer, and the position after the band or the error.
pub open spec fn band_columns(
    c: BarCaches,
    s: Seq<u8>,
    p: int,
    band: Band,
    x: int,
    w: int,
    h: int,
    out: Seq<u8>,
) -> (BarCaches, Seq<u8>, Result<int, Seq<char>>)
    decreases band.x_end + 1 - x,
{
    if x > band.x_end {
        (c, out, Ok(p))
    } else {
        match bar_at(c, s, p, band.background, band.height()) {
            Err(message) => (c, out, Err(message)),
            Ok((next, used, bar)) => {
                let (painted, end) = paint_bar(out, w, h, x, band.y_start, band.height(), bar);
                match end {
                    Err(message) => (next, painted, Err(message)),
                    Ok(_) => band_columns(next, s, p + used, band, x + 1, w, h, painted),
                }
            },
        }
    }
}

/// A band ends after it starts, and inside the stream.
pub proof fn lemma_columns_advance(
    c: BarCaches,
    s: Seq<u8>,
    p: int,
    band: Band,
    x: int,
    w: int,
    h: int,
    out: Seq<u8>,
)
    requires
        p <= s.len(),
    ensures
        band_columns(c, s, p, band, x, w, h, out).2 matches Ok(q) ==> p <= q <= s.len(),
    decreases band.x_end + 1 - x,
{
    if x <= band.x_end {
        if let Ok((next, used, bar)) = bar_at(c, s, p, band.background, band.height()) {
            let (painted, end) = paint_bar(out, w, h, x, band.y_start, band.height(), bar);
            lemma_columns_advance(next, s, p + used, band, x + 1, w, h, painted);
        }
    }
}

/// The outcome of the layer from `p` on: the caches, the painted buffer, and how the layer ends.
pub open spec fn bands_layer(
    c: BarCaches,
    s: Seq<u8>,
    p: int,
    w: int,
    h: int,
    out: Seq<u8>,
) -> (BarCaches, Seq<u8>, Result<(), Seq<char>>)
    decreases s.len() - p,
{
    if p >= s.len() {
        (c, out, Ok(()))
    } else if p + 11 > s.len() {
        (c, out, Err("stream underrun"@))
    } else {
        let band = band_at(s, p);
        if band.x_end < band.x_start {
            (c, out, Err("band xEnd < xStart"@))
        } else if band.y_end < band.y_start {
            (c, out, Err("band yEnd < yStart"@))
        } else if band.height() > 52 {
            (c, out, Err("band vBar height > 52"@))
        } else {
            proof {
                lemma_columns_advance(c, s, p + 11, band, band.x_start, w, h, out);
            }
            let columns = band_columns(c, s, p + 11, band, band.x_start, w, h, out);
            match columns.2 {
                Err(message) => (columns.0, columns.1, Err(message)),
                Ok(q) => bands_layer(columns.0, s, q, w, h, columns.1),
            }
        }
    }
}

/// Composes a bar.
pub fn build_bar(background: [u8; 4], short: &Vec<u8>, y_on: usize, height: usize) -> (bar: Vec<u8>)
    requires
        is_bar(short@),
        y_on <= 255,
        height <= 52,
    ensures
        bar@ == compose_bar(background@, short@, y_on as int, height as int),
        is_bar(bar@),
{
    let mut bar: Vec<u8> = Vec::new();
    let short_count: usize = short.len() / 4;
    let mut y: usize = 0;
    while y < height
        invariant
            is_bar(short@),
            short_count == short@.len() / 4,
            y_on <= 255,
            y <= height <= 52,
            bar@ =~= compose_bar(background@, short@, y_on as int, y as int),
        decreases height - y,
    {
        if y >= y_on && y < y_on + short_count {
            let at: usize = (y - y_on) * 4;
            bar.push(short[at]);
            bar.push(short[at + 1]);
            bar.push(short[at + 2]);
            bar.push(short[at + 3]);
        } else {
            bar.push(background[0]);
            bar.push(background[1]);
            bar.push(background[2]);
            bar.push(background[3]);
        }
        y = y + 1;
    }
    bar
}

/// Turns BGR triplets into flat RGBA bytes.
pub fn build_short(raw: &[u8]) -> (short: Vec<u8>)
    requires
        raw@.len() % 3 == 0,
        raw@.len() <= 156,
    ensures
        short@ == flat(paint::bgr_to_rgba(raw@)),
        is_bar(short@),
{
    let mut short: Vec<u8> = Vec::new();
    let mut at: usize = 0;
    while at < raw.len()
        invariant
            raw@.len() % 3 == 0,
            raw@.len() <= 156,
            at <= raw@.len(),
            at % 3 == 0,
            short@ =~= flat(paint::bgr_to_rgba(raw@.take(at as int))),
        decreases raw@.len() - at,
    {
        let ghost done = raw@.take(at as int);
        let ghost more = raw@.take(at + 3);
        short.push(raw[at + 2]);
        short.push(raw[at + 1]);
        short.push(raw[at]);
        short.push(0xFF);
        at = at + 3;
        proof {
            assert(paint::bgr_to_rgba(more).len() == paint::bgr_to_rgba(done).len() + 1);
            assert(forall|i: int|
                0 <= i < paint::bgr_to_rgba(done).len() ==> paint::bgr_to_rgba(more)[i]
                    == paint::bgr_to_rgba(done)[i]);
        }
    }
    assert(raw@.take(at as int) =~= raw@);
    short
}

/// Paints a bar into column `x` from row `y` on.
pub fn paint_column(
    out: &mut [u8],
    w: usize,
    h: usize,
    x: usize,
    y: usize,
    height: usize,
    bar: &Vec<u8>,
) -> (res: ClearResult<()>)
    requires
        w * h * 4 <= usize::MAX,
        old(out)@.len() == w * h * 4,
        is_bar(bar@),
    ensures
        final(out)@.len() == old(out)@.len(),
        ({
            let (painted, end) = paint_bar(
                old(out)@,
                w as int,
                h as int,
                x as int,
                y as int,
                height as int,
                bar@,
            );
            &&& final(out)@ == painted
            &&& match end {
                Ok(_) => res is Ok,
                Err(message) => res matches Err(e) && e.0@ == message,
            }
        }),
{
    let mut rows: usize = bar.len() / 4;
    if height < rows {
        rows = height;
    }
    if h < rows {
        rows = h;
    }
    if x >= w {
        return Err(ClearDecodeError("band column outside rect"));
    }
    let mut i: usize = 0;
    assert(paint::pixels(bar@).take(0) =~= Seq::empty());
    while i < rows
        invariant
            w * h * 4 <= usize::MAX,
            out@.len() == old(out)@.len() == w * h * 4,
            x < w,
            i <= rows <= bar@.len() / 4,
            i > 0 ==> y + i <= h,
            rows == lesser(lesser(bar@.len() as int / 4, height as int), h as int),
            is_bar(bar@),
            out@ == paint::paint(
                old(out)@,
                w as int,
                x as int,
                y as int,
                1,
                paint::pixels(bar@).take(i as int),
            ),
        decreases rows - i,
    {
        if y >= h || i >= h - y {
            return Err(ClearDecodeError("band row outside rect"));
        }
        let at: usize = i * 4;
        let color: [u8; 4] = [bar[at], bar[at + 1], bar[at + 2], bar[at + 3]];
        proof {
            let colors = paint::pixels(bar@).take(i as int);
            assert(color@ =~= paint::pixels(bar@)[i as int]);
            assert(paint::pixels(bar@).take(i + 1) =~= colors.push(color@));
            paint::lemma_paint_push(old(out)@, w as int, x as int, y as int, 1, colors, color@);
            let row = y + i;
            assert(0 <= row * w && row * w + w <= w * h) by (nonlinear_arith)
                requires
                    0 <= row < h,
                    0 <= w,
            ;
        }
        set_pixel(out, (y + i) * w + x, color);
        i = i + 1;
    }
    Ok(())
}

} // verus!
