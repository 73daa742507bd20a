//! The decoder and its caches.

use crate::bytes;
use crate::clear_codec::bands::{
    build_bar, build_short, paint_column, BarCaches, SHORT_VBAR_CACHE_SIZE, VBAR_CACHE_SIZE,
};
use crate::clear_codec::reader::{ClearDecodeError, ClearResult, Reader};
use crate::clear_codec::residual::decode_residual;
use crate::clear_codec::subcodec::decode_subcodecs;
use crate::clear_codec::{bands, paint, residual, subcodec};
use vstd::prelude::*;
use vstd::slice::slice_to_vec;

verus! {

/// The stream names a glyph.
pub const FLAG_GLYPH_INDEX: u8 = 0x01;

/// The stream is nothing but a cached glyph.
pub const FLAG_GLYPH_HIT: u8 = 0x02;

/// The bar caches are filled from their start again.
pub const FLAG_CACHE_RESET: u8 = 0x04;

/// How many glyphs are cached.
pub const GLYPH_CACHE_SIZE: usize = 4000;

/// What a decoder remembers from one stream to the next.
pub struct ClearState {
    /// The sequence number that the next stream should have.
    pub seq_number: u8,
    pub seq_started: bool,
    /// Composed rectangles.
    pub glyphs: Seq<Seq<u8>>,
    pub bars: BarCaches,
}

impl ClearState {
    /// The caches have their sizes and hold what they are for.
    pub open spec fn wf(self) -> bool {
        self.glyphs.len() == GLYPH_CACHE_SIZE && self.bars.wf()
    }

    /// The state of a fresh decoder.
    pub open spec fn initial() -> ClearState {
        ClearState {
            seq_number: 0,
            seq_started: false,
            glyphs: Seq::new(GLYPH_CACHE_SIZE as nat, |i: int| Seq::empty()),
            bars: BarCaches {
                vbars: Seq::new(VBAR_CACHE_SIZE as nat, |i: int| Seq::empty()),
                vbar_cursor: 0,
                shorts: Seq::new(SHORT_VBAR_CACHE_SIZE as nat, |i: int| Seq::empty()),
                short_cursor: 0,
            },
        }
    }

    /// The state after the first two bytes of a stream have been read.
    pub open spec fn begin(self, flags: u8, seq_number: u8) -> ClearState {
        ClearState {
            seq_number: ((seq_number + 1) % 256) as u8,
            seq_started: true,
            glyphs: self.glyphs,
            bars: if flags & FLAG_CACHE_RESET != 0 {
                BarCaches { vbar_cursor: 0, short_cursor: 0, ..self.bars }
            } else {
                self.bars
            },
        }
    }
}

/// A stream's effect: the state after it, the destination after it, and how it ended.
pub struct ClearOutcome {
    pub state: ClearState,
    pub out: Seq<u8>,
    pub res: Result<(), Seq<char>>,
}

/// The effect of the layers that start at `p` with the three byte counts.
pub open spec fn composition(
    state: ClearState,
    src: Seq<u8>,
    p: int,
    w: int,
    h: int,
    out: Seq<u8>,
) -> ClearOutcome {
    if p + 12 > src.len() {
        ClearOutcome { state, out, res: Err("missing composition payload header"@) }
    } else {
        let residual_size = bytes::le32(src, p);
        let bands_size = bytes::le32(src, p + 4);
        let subcodec_size = bytes::le32(src, p + 8);
        let bands_start = p + 12 + residual_size;
        let subcodec_start = bands_start + bands_size;
        let end = subcodec_start + subcodec_size;
        if bands_start > src.len() {
            ClearOutcome { state, out, res: Err("stream underrun"@) }
        } else {
            let residual = if residual_size > 0 {
                residual::residual_layer(src.subrange(p + 12, bands_start), w, h, out)
            } else {
                (out, Ok(()))
            };
            if residual.1 is Err {
                ClearOutcome { state, out: residual.0, res: residual.1 }
            } else if subcodec_start > src.len() {
                ClearOutcome { state, out: residual.0, res: Err("stream underrun"@) }
            } else {
                let bands = if bands_size > 0 {
                    bands::bands_layer(
                        state.bars,
                        src.subrange(bands_start, subcodec_start),
                        0,
                        w,
                        h,
                        residual.0,
                    )
                } else {
                    (state.bars, residual.0, Ok(()))
                };
                let state = ClearState { bars: bands.0, ..state };
                if bands.2 is Err {
                    ClearOutcome { state, out: bands.1, res: bands.2 }
                } else if end > src.len() {
                    ClearOutcome { state, out: bands.1, res: Err("stream underrun"@) }
                } else {
                    let subcodecs = if subcodec_size > 0 {
                        subcodec::subcodec_layer(
                            src.subrange(subcodec_start, end),
                            0,
                            w,
                            h,
                            bands.1,
                        )
                    } else {
                        (bands.1, Ok(()))
                    };
                    ClearOutcome { state, out: subcodecs.0, res: subcodecs.1 }
                }
            }
        }
    }
}

/// The effect of a stream that names a glyph, once its first two bytes have been read: the glyph
/// is shown, or what is composed is stored under its index.
pub open spec fn decode_glyph(
    state: ClearState,
    src: Seq<u8>,
    w: int,
    h: int,
    out: Seq<u8>,
) -> ClearOutcome {
    if w * h > 1024 * 1024 {
        ClearOutcome { state, out, res: Err("glyph rect larger than 1024x1024"@) }
    } else if src.len() < 4 {
        ClearOutcome { state, out, res: Err("stream underrun"@) }
    } else if bytes::le16(src, 2) >= GLYPH_CACHE_SIZE {
        ClearOutcome { state, out, res: Err("glyph index out of range"@) }
    } else if src[0] & FLAG_GLYPH_HIT != 0 {
        let glyph = state.glyphs[bytes::le16(src, 2)];
        if glyph.len() < out.len() {
            ClearOutcome { state, out, res: Err("glyph cache entry smaller than rect"@) }
        } else {
            ClearOutcome { state, out: glyph.take(out.len() as int), res: Ok(()) }
        }
    } else {
        let o = composition(state, src, 4, w, h, out);
        if o.res is Ok {
            ClearOutcome {
                state: ClearState {
                    glyphs: o.state.glyphs.update(bytes::le16(src, 2), o.out),
                    ..o.state
                },
                ..o
            }
        } else {
            o
        }
    }
}

/// The effect of a stream on a decoder and on a destination of `w` by `h` pixels.
pub open spec fn clear_decode(
    state: ClearState,
    src: Seq<u8>,
    w: int,
    h: int,
    out: Seq<u8>,
) -> ClearOutcome {
    if w == 0 || h == 0 {
        ClearOutcome { state, out, res: Err("empty destination rectangle"@) }
    } else if w * h > 1024 * 1024 * 16 {
        ClearOutcome { state, out, res: Err("destination rectangle too large"@) }
    } else if out.len() != w * h * 4 {
        ClearOutcome { state, out, res: Err("output buffer size mismatch"@) }
    } else if src.len() < 2 {
        ClearOutcome { state, out, res: Err("stream underrun"@) }
    } else {
        let flags = src[0];
        let state = state.begin(flags, src[1]);
        if flags & FLAG_GLYPH_INDEX != 0 {
            decode_glyph(state, src, w, h, out)
        } else if flags & FLAG_GLYPH_HIT != 0 {
            ClearOutcome { state, out, res: Err("GLYPH_HIT without GLYPH_INDEX"@) }
        } else {
            composition(state, src, 2, w, h, out)
        }
    }
}

/// The contents of cache entries.
spec fn images(entries: Seq<Vec<u8>>) -> Seq<Seq<u8>> {
    entries.map_values(|entry: Vec<u8>| entry@)
}

/// Storing an entry stores its contents.
proof fn lemma_images_update(entries: Seq<Vec<u8>>, i: int, entry: Vec<u8>)
    requires
        0 <= i < entries.len(),
    ensures
        images(entries.update(i, entry)) == images(entries).update(i, entry@),
{
    assert(images(entries.update(i, entry)) =~= images(entries).update(i, entry@));
}

/// A cache of `n` empty entries.
fn empty_entries(n: usize) -> (entries: Vec<Vec<u8>>)
    ensures
        images(entries@) == Seq::new(n as nat, |i: int| Seq::<u8>::empty()),
{
    let mut entries: Vec<Vec<u8>> = Vec::new();
    while entries.len() < n
        invariant
            entries@.len() <= n,
            forall|i: int| 0 <= i < entries@.len() ==> (#[trigger] entries@[i])@.len() == 0,
        decreases n - entries@.len(),
    {
        entries.push(Vec::new());
    }
    assert forall|i: int| 0 <= i < n implies (#[trigger] entries@[i])@ == Seq::<u8>::empty() by {
        assert(entries@[i]@ =~= Seq::<u8>::empty());
    }
    assert(images(entries@) =~= Seq::new(n as nat, |i: int| Seq::<u8>::empty()));
    entries
}

/// Copies the start of a glyph.
fn copy_glyph(glyph: &Vec<u8>, out: &mut [u8])
    requires
        old(out)@.len() <= glyph@.len(),
    ensures
        final(out)@ == glyph@.take(old(out)@.len() as int),
{
    let mut i: usize = 0;
    while i < out.len()
        invariant
            i <= out@.len() == old(out)@.len() <= glyph@.len(),
            forall|j: int| 0 <= j < i ==> out@[j] == glyph@[j],
        decreases out@.len() - i,
    {
        out[i] = glyph[i];
        i = i + 1;
    }
    assert(out@ =~= glyph@.take(out@.len() as int));
}

/// A ClearCodec decoder. Its caches live as long as the session.
pub struct ClearDecoder {
    seq_number: u8,
    seq_started: bool,
    glyph_cache: Vec<Vec<u8>>,
    vbar: Vec<Vec<u8>>,
    vbar_cursor: usize,
    short_vbar: Vec<Vec<u8>>,
    short_vbar_cursor: usize,
}

impl View for ClearDecoder {
    type V = ClearState;

    closed spec fn view(&self) -> ClearState {
        ClearState {
            seq_number: self.seq_number,
            seq_started: self.seq_started,
            glyphs: images(self.glyph_cache@),
            bars: self.bar_caches(),
        }
    }
}

impl Default for ClearDecoder {
    fn default() -> (r: Self)
        ensures
            r@ == ClearState::initial(),
            r.wf(),
    {
        ClearDecoder::new()
    }
}

impl ClearDecoder {
    /// The decoder's caches are in order.
    pub open spec fn wf(&self) -> bool {
        self@.wf()
    }

    closed spec fn bar_caches(&self) -> BarCaches {
        BarCaches {
            vbars: images(self.vbar@),
            vbar_cursor: self.vbar_cursor as int,
            shorts: images(self.short_vbar@),
            short_cursor: self.short_vbar_cursor as int,
        }
    }

    /// A decoder with empty caches.
    pub fn new() -> (r: Self)
        ensures
            r@ == ClearState::initial(),
            r.wf(),
    {
        ClearDecoder {
            seq_number: 0,
            seq_started: false,
            glyph_cache: empty_entries(GLYPH_CACHE_SIZE),
            vbar: empty_entries(VBAR_CACHE_SIZE),
            vbar_cursor: 0,
            short_vbar: empty_entries(SHORT_VBAR_CACHE_SIZE),
            short_vbar_cursor: 0,
        }
    }

    /// Reads one bar of a band and returns its place in the cache of composed bars.
    fn next_bar(&mut self, r: &mut Reader<'_>, background: [u8; 4], height: usize) -> (res:
        ClearResult<usize>)
        requires
            old(self)@.wf(),
            old(r).wf(),
            height <= 52,
        ensures
            final(self)@.wf(),
            final(r).wf(),
            final(r).data@ == old(r).data@,
            final(self)@ == (ClearState { bars: final(self)@.bars, ..old(self)@ }),
            match bands::bar_at(
                old(self)@.bars,
                old(r).data@,
                old(r).pos as int,
                background@,
                height as int,
            ) {
                Ok((next, used, bar)) => {
                    &&& res matches Ok(i) && i < VBAR_CACHE_SIZE
                        && final(self)@.bars.vbars[i as int] == bar
                    &&& final(self)@.bars == next
                    &&& final(r).pos == old(r).pos + used
                },
                Err(message) => {
                    &&& res matches Err(e) && e.0@ == message
                    &&& final(self)@.bars == old(self)@.bars
                },
            },
    {
        let header: u16 = r.u16()?;
        if header / 0x4000 == 1 {
            let index: usize = (header % 0x4000) as usize;
            let y_on: usize = r.u8()? as usize;
            assert(bands::is_bar(self@.bars.shorts[index as int]));
            let bar = build_bar(background, &self.short_vbar[index], y_on, height);
            Ok(self.store_bar(bar))
        } else if header / 0x4000 == 0 {
            let y_on: usize = (header % 0x100) as usize;
            let y_off: usize = (header / 0x100) as usize;
            if y_off < y_on {
                return Err(ClearDecodeError("short vBar yOff < yOn"));
            }
            let count: usize = y_off - y_on;
            if count > 52 {
                return Err(ClearDecodeError("short vBar pixel count > 52"));
            }
            let raw = r.bytes(count * 3)?;
            let short = build_short(raw);
            let bar = build_bar(background, &short, y_on, height);
            self.store_short(short);
            Ok(self.store_bar(bar))
        } else {
            Ok((header % 0x8000) as usize)
        }
    }

    /// Stores a composed bar and returns its place.
    fn store_bar(&mut self, bar: Vec<u8>) -> (i: usize)
        requires
            old(self)@.wf(),
            bands::is_bar(bar@),
        ensures
            final(self)@.wf(),
            final(self)@ == (ClearState {
                bars: old(self)@.bars.store_bar(bar@),
                ..old(self)@
            }),
            i == old(self)@.bars.vbar_cursor,
    {
        let i: usize = self.vbar_cursor;
        proof {
            lemma_images_update(self.vbar@, i as int, bar);
        }
        self.vbar[i] = bar;
        self.vbar_cursor = (i + 1) % VBAR_CACHE_SIZE;
        i
    }

    /// Stores a short bar.
    fn store_short(&mut self, short: Vec<u8>)
        requires
            old(self)@.wf(),
            bands::is_bar(short@),
        ensures
            final(self)@.wf(),
            final(self)@ == (ClearState {
                bars: old(self)@.bars.store_short(short@),
                ..old(self)@
            }),
    {
        let i: usize = self.short_vbar_cursor;
        proof {
            lemma_images_update(self.short_vbar@, i as int, short);
        }
        self.short_vbar[i] = short;
        self.short_vbar_cursor = (i + 1) % SHORT_VBAR_CACHE_SIZE;
    }

    /// Decodes the bands layer into `out`: strips of bars of the band's full height, each painted
    /// into one column.
    pub fn decode_bands(&mut self, layer: &[u8], w: usize, h: usize, out: &mut [u8]) -> (res:
        ClearResult<()>)
        requires
            old(self).wf(),
            w * h * 4 <= usize::MAX,
            old(out)@.len() == w * h * 4,
        ensures
            final(self).wf(),
            final(out)@.len() == old(out)@.len(),
            ({
                let (bars, painted, end) = bands::bands_layer(
                    old(self)@.bars,
                    layer@,
                    0,
                    w as int,
                    h as int,
                    old(out)@,
                );
                &&& final(self)@ == (ClearState { bars, ..old(self)@ })
                &&& final(out)@ == painted
                &&& match end {
                    Ok(_) => res is Ok,
                    Err(message) => res matches Err(e) && e.0@ == message,
                }
            }),
    {
        let mut r = Reader::new(layer);
        let ghost whole = bands::bands_layer(self@.bars, layer@, 0, w as int, h as int, out@);

        while r.remaining() > 0
            invariant
                r.wf(),
                r.data@ == layer@,
                self@.wf(),
                self@ == (ClearState { bars: self@.bars, ..old(self)@ }),
                w * h * 4 <= usize::MAX,
                out@.len() == old(out)@.len() == w * h * 4,
                whole == bands::bands_layer(
                    old(self)@.bars,
                    layer@,
                    0,
                    w as int,
                    h as int,
                    old(out)@,
                ),
                whole == bands::bands_layer(
                    self@.bars,
                    layer@,
                    r.pos as int,
                    w as int,
                    h as int,
                    out@,
                ),
            decreases layer@.len() - r.pos,
        {
            let ghost start = r.pos as int;
            let x_start: usize = r.u16()? as usize;
            let x_end: usize = r.u16()? as usize;
            let y_start: usize = r.u16()? as usize;
            let y_end: usize = r.u16()? as usize;
            let blue: u8 = r.u8()?;
            let green: u8 = r.u8()?;
            let red: u8 = r.u8()?;
            let background: [u8; 4] = [red, green, blue, 0xFF];
            let ghost band = bands::band_at(layer@, start);
            assert(background@ =~= band.background);

            if x_end < x_start {
                return Err(ClearDecodeError("band xEnd < xStart"));
            }
            if y_end < y_start {
                return Err(ClearDecodeError("band yEnd < yStart"));
            }
            let height: usize = y_end - y_start + 1;
            if height > 52 {
                return Err(ClearDecodeError("band vBar height > 52"));
            }
            let ghost columns = bands::band_columns(
                self@.bars,
                layer@,
                start + 11,
                band,
                x_start as int,
                w as int,
                h as int,
                out@,
            );
            let mut x: usize = x_start;
            while x <= x_end
                invariant
                    r.wf(),
                    r.data@ == layer@,
                    start + 11 <= r.pos,
                    self@.wf(),
                    self@ == (ClearState { bars: self@.bars, ..old(self)@ }),
                    w * h * 4 <= usize::MAX,
                    out@.len() == old(out)@.len() == w * h * 4,
                    y_start == band.y_start <= 65535,
                    x <= x_end + 1,
                    x_end == band.x_end <= 65535,
                    height == band.height() <= 52,
                    background@ == band.background,
                    columns.2 is Err ==> whole == (
                        columns.0,
                        columns.1,
                        Err::<(), Seq<char>>(columns.2->Err_0),
                    ),
                    whole == bands::bands_layer(
                        old(self)@.bars,
                        layer@,
                        0,
                        w as int,
                        h as int,
                        old(out)@,
                    ),
                    columns == bands::band_columns(
                        self@.bars,
                        layer@,
                        r.pos as int,
                        band,
                        x as int,
                        w as int,
                        h as int,
                        out@,
                    ),
                decreases x_end + 1 - x,
            {
                let i: usize = self.next_bar(&mut r, background, height)?;
                assert(bands::is_bar(self@.bars.vbars[i as int]));
                paint_column(out, w, h, x, y_start, height, &self.vbar[i])?;
                x = x + 1;
            }
        }
        Ok(())
    }

    /// Decodes the layers that `r` is at into `out`.
    fn decode_composition(
        &mut self,
        r: &mut Reader<'_>,
        w: usize,
        h: usize,
        out: &mut [u8],
    ) -> (res: ClearResult<()>)
        requires
            old(self).wf(),
            old(r).wf(),
            w * h * 4 <= usize::MAX,
            old(out)@.len() == w * h * 4,
        ensures
            final(self).wf(),
            final(out)@.len() == old(out)@.len(),
            ({
                let o = composition(
                    old(self)@,
                    old(r).data@,
                    old(r).pos as int,
                    w as int,
                    h as int,
                    old(out)@,
                );
                &&& final(self)@ == o.state
                &&& final(out)@ == o.out
                &&& match o.res {
                    Ok(_) => res is Ok,
                    Err(message) => res matches Err(e) && e.0@ == message,
                }
            }),
    {
        if r.remaining() < 12 {
            return Err(ClearDecodeError("missing composition payload header"));
        }
        let residual_byte_count: usize = r.u32()? as usize;
        let bands_byte_count: usize = r.u32()? as usize;
        let subcodec_byte_count: usize = r.u32()? as usize;

        if residual_byte_count > 0 {
            let layer = r.bytes(residual_byte_count)?;
            decode_residual(layer, w, h, out)?;
        }
        if bands_byte_count > 0 {
            let layer = r.bytes(bands_byte_count)?;
            self.decode_bands(layer, w, h, out)?;
        }
        if subcodec_byte_count > 0 {
            let layer = r.bytes(subcodec_byte_count)?;
            decode_subcodecs(layer, w, h, out)?;
        }
        Ok(())
    }

    /// Takes note of a stream's first two bytes. A sequence number that does not follow is
    /// adopted: the caches are addressed by index, so decoding stays well-defined.
    fn begin(&mut self, glyph_flags: u8, seq_number: u8)
        requires
            old(self).wf(),
        ensures
            final(self).wf(),
            final(self)@ == old(self)@.begin(glyph_flags, seq_number),
    {
        self.seq_started = true;
        self.seq_number = seq_number.wrapping_add(1);
        if glyph_flags & FLAG_CACHE_RESET != 0 {
            self.vbar_cursor = 0;
            self.short_vbar_cursor = 0;
        }
    }

    /// Decodes a stream that names a glyph. `r` is behind the stream's first two bytes.
    fn decode_glyph(
        &mut self,
        r: &mut Reader<'_>,
        glyph_flags: u8,
        w: usize,
        h: usize,
        out: &mut [u8],
    ) -> (res: ClearResult<()>)
        requires
            old(self).wf(),
            old(r).wf(),
            old(r).pos == 2,
            glyph_flags == old(r).data@[0],
            w * h * 4 <= usize::MAX,
            old(out)@.len() == w * h * 4,
        ensures
            final(self).wf(),
            ({
                let o = decode_glyph(old(self)@, old(r).data@, w as int, h as int, old(out)@);
                &&& final(self)@ == o.state
                &&& final(out)@ == o.out
                &&& match o.res {
                    Ok(_) => res is Ok,
                    Err(message) => res matches Err(e) && e.0@ == message,
                }
            }),
    {
        assert(0 <= w * h <= w * h * 4) by (nonlinear_arith)
            requires
                w >= 0,
                h >= 0,
        ;
        if w * h > 1024 * 1024 {
            return Err(ClearDecodeError("glyph rect larger than 1024x1024"));
        }
        let glyph_index: usize = r.u16()? as usize;
        if glyph_index >= GLYPH_CACHE_SIZE {
            return Err(ClearDecodeError("glyph index out of range"));
        }
        if glyph_flags & FLAG_GLYPH_HIT != 0 {
            let entry = &self.glyph_cache[glyph_index];
            if entry.len() < out.len() {
                return Err(ClearDecodeError("glyph cache entry smaller than rect"));
            }
            copy_glyph(entry, out);
            return Ok(());
        }
        self.decode_composition(r, w, h, out)?;
        let glyph = slice_to_vec(out);
        proof {
            lemma_images_update(self.glyph_cache@, glyph_index as int, glyph);
        }
        self.glyph_cache[glyph_index] = glyph;
        Ok(())
    }

    /// Decodes one stream into `out`, an RGBA buffer of exactly `width * height * 4` bytes. What
    /// the stream does not paint keeps its content.
    pub fn decode(&mut self, src: &[u8], width: u16, height: u16, out: &mut [u8]) -> (res:
        ClearResult<()>)
        requires
            old(self).wf(),
        ensures
            final(self).wf(),
            ({
                let o = clear_decode(old(self)@, src@, width as int, height as int, old(out)@);
                &&& final(self)@ == o.state
                &&& final(out)@ == o.out
                &&& match o.res {
                    Ok(_) => res is Ok,
                    Err(message) => res matches Err(e) && e.0@ == message,
                }
            }),
    {
        let w: usize = width as usize;
        let h: usize = height as usize;
        if w == 0 || h == 0 {
            return Err(ClearDecodeError("empty destination rectangle"));
        }
        assert(0 <= w * h <= 65535 * 65535) by (nonlinear_arith)
            requires
                0 <= w <= 65535,
                0 <= h <= 65535,
        ;
        if w * h > 1024 * 1024 * 16 {
            return Err(ClearDecodeError("destination rectangle too large"));
        }
        if out.len() != w * h * 4 {
            return Err(ClearDecodeError("output buffer size mismatch"));
        }
        let mut r = Reader::new(src);
        let glyph_flags: u8 = r.u8()?;
        let seq_number: u8 = r.u8()?;

        self.begin(glyph_flags, seq_number);
        if glyph_flags & FLAG_GLYPH_INDEX != 0 {
            self.decode_glyph(&mut r, glyph_flags, w, h, out)
        } else if glyph_flags & FLAG_GLYPH_HIT != 0 {
            Err(ClearDecodeError("GLYPH_HIT without GLYPH_INDEX"))
        } else {
            self.decode_composition(&mut r, w, h, out)
        }
    }
}

} // verus!
