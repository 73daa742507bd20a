//! The subcodec layer: rectangles of raw BGR pixels or of RLEX palette runs.

use crate::bytes;
use crate::clear_codec::paint::put;
use crate::clear_codec::reader::{ClearDecodeError, ClearResult, Reader};
use crate::clear_codec::residual::read_run_length;
use crate::clear_codec::{paint, residual};
use vstd::arithmetic::div_mod::*;
use vstd::arithmetic::logarithm::*;
use vstd::arithmetic::mul::*;
use vstd::arithmetic::power2::*;
use vstd::bits::lemma_u8_shl_is_mul;
use vstd::prelude::*;

verus! {

/// The binary logarithm, rounded down, with zero for zero.
pub fn log2_floor(n: u8) -> (r: u32)
    ensures
        r == log(2, n as int),
        n == 0 ==> r == 0,
        n > 0 ==> pow2(r as nat) <= n < pow2((r + 1) as nat),
{
    let mut m: u8 = n;
    let mut r: u32 = 0;
    proof {
        lemma2_to64();
    }
    while m >= 2
        invariant
            log(2, n as int) == r + log(2, m as int),
            r + m <= 255,
            m == n as int / pow2(r as nat) as int,
            n == 0 ==> r == 0,
            n > 0 ==> m > 0,
        decreases m,
    {
        proof {
            lemma_log_s(2, m as int);
            lemma_pow2_pos(r as nat);
            lemma_pow2_unfold((r + 1) as nat);
            lemma_div_denominator(n as int, pow2(r as nat) as int, 2);
            lemma_mul_is_commutative(pow2(r as nat) as int, 2);
        }
        m = m / 2;
        r = r + 1;
    }
    proof {
        lemma_log0(2, m as int);
        lemma_pow2_pos(r as nat);
        lemma_pow2_unfold((r + 1) as nat);
        lemma_fundamental_div_mod(n as int, pow2(r as nat) as int);
    }
    r
}

/// Seven bits have a logarithm of at most six.
proof fn lemma_log_seven_bits(n: int)
    requires
        0 <= n <= 127,
    ensures
        0 <= log(2, n) <= 6,
{
    lemma_log_nonnegative(2, n);
    lemma_log_is_ordered(2, n, 127);
    lemma_log_s(2, 127);
    lemma_log_s(2, 63);
    lemma_log_s(2, 31);
    lemma_log_s(2, 15);
    lemma_log_s(2, 7);
    lemma_log_s(2, 3);
    lemma_log0(2, 1);
}

/// How many low bits of a run's first byte hold a palette index.
pub open spec fn index_bits(palette_count: int) -> int {
    log(2, palette_count - 1) + 1
}

/// The palette of an RLEX rectangle.
pub open spec fn palette(s: Seq<u8>) -> Seq<Seq<u8>> {
    paint::bgr_to_rgba(s.subrange(1, 1 + 3 * s[0]))
}

/// The colors that an RLEX rectangle paints from `p` on, after `done` of its `total` pixels, and
/// how it ends. A run is a background color, repeated, and then a suite of neighbours in the
/// palette that starts with that color.
pub open spec fn rlex_colors(
    s: Seq<u8>,
    p: int,
    pal: Seq<Seq<u8>>,
    done: Seq<Seq<u8>>,
    total: int,
) -> (Seq<Seq<u8>>, Result<(), Seq<char>>)
    decreases s.len() - p,
{
    if p >= s.len() {
        if done.len() == total {
            (done, Ok(()))
        } else {
            (done, Err("RLEX does not cover rect"@))
        }
    } else {
        match residual::run_length(s, p + 1) {
            Err(message) => (done, Err(message)),
            Ok((run, used)) => {
                let unit = pow2(index_bits(pal.len() as int) as nat) as int;
                let depth = s[p] as int / unit;
                let stop = s[p] as int % unit;
                let start = stop - depth;
                if start < 0 || stop >= pal.len() {
                    (done, Err("RLEX palette index out of range"@))
                } else if done.len() + run > total {
                    (done, Err("RLEX background run overflows rect"@))
                } else {
                    let filled = done + paint::repeated(pal[start], run);
                    if filled.len() + depth + 1 > total {
                        (filled, Err("RLEX suite overflows rect"@))
                    } else {
                        rlex_colors(
                            s,
                            p + 1 + used,
                            pal,
                            filled + pal.subrange(start, stop + 1),
                            total,
                        )
                    }
                }
            },
        }
    }
}

/// The colors of a whole RLEX rectangle of `total` pixels, and how it ends.
pub open spec fn rlex(s: Seq<u8>, total: int) -> (Seq<Seq<u8>>, Result<(), Seq<char>>) {
    if s.len() == 0 {
        (Seq::empty(), Err("stream underrun"@))
    } else if s[0] == 0 || s[0] > 127 {
        (Seq::empty(), Err("RLEX palette count out of range"@))
    } else if 1 + 3 * s[0] > s.len() {
        (Seq::empty(), Err("stream underrun"@))
    } else {
        rlex_colors(s, 1 + 3 * s[0], palette(s), Seq::empty(), total)
    }
}

/// Decodes an RLEX rectangle of `sw` by `sh` pixels into `out`.
pub fn decode_rlex(
    data: &[u8],
    sw: usize,
    sh: usize,
    x_start: usize,
    y_start: usize,
    w: usize,
    h: usize,
    out: &mut [u8],
) -> (res: ClearResult<()>)
    requires
        w * h * 4 <= usize::MAX,
        old(out)@.len() == w * h * 4,
        x_start + sw <= w,
        y_start + sh <= h,
    ensures
        final(out)@.len() == old(out)@.len(),
        ({
            let (colors, end) = rlex(data@, sw * sh);
            &&& final(out)@ == paint::paint(
                old(out)@,
                w as int,
                x_start as int,
                y_start as int,
                sw as int,
                colors,
            )
            &&& match end {
                Ok(_) => res is Ok,
                Err(message) => res matches Err(e) && e.0@ == message,
            }
        }),
{
    let mut r = Reader::new(data);

    let palette_count: u8 = r.u8()?;
    if palette_count == 0 || palette_count > 127 {
        return Err(ClearDecodeError("RLEX palette count out of range"));
    }
    let mut colors_of: Vec<[u8; 4]> = Vec::new();
    while colors_of.len() < palette_count as usize
        invariant
            r.wf(),
            r.data@ == data@,
            palette_count == data@[0],
            0 < palette_count <= 127,
            0 < data@.len(),
            colors_of@.len() <= palette_count,
            r.pos == 1 + 3 * colors_of@.len(),
            forall|i: int|
                0 <= i < colors_of@.len() ==> (#[trigger] colors_of@[i])@ == paint::rgba(
                    data@[3 * i + 3],
                    data@[3 * i + 2],
                    data@[3 * i + 1],
                ),
        decreases palette_count - colors_of@.len(),
    {
        let b: u8 = r.u8()?;
        let g: u8 = r.u8()?;
        let red: u8 = r.u8()?;
        let entry: [u8; 4] = [red, g, b, 0xFF];
        assert(entry@ =~= paint::rgba(red, g, b));
        colors_of.push(entry);
    }
    let ghost pal = palette(data@);
    assert(pal.len() == palette_count);
    assert forall|i: int| 0 <= i < pal.len() implies pal[i] == (#[trigger] colors_of@[i])@ by {}

    proof {
        assert(0 <= sw * sh <= w * h) by (nonlinear_arith)
            requires
                0 <= sw <= w,
                0 <= sh <= h,
        ;
        assert(w * h <= w * h * 4) by (nonlinear_arith)
            requires
                0 <= w,
                0 <= h,
        ;
        lemma_log_seven_bits(palette_count - 1);
        lemma2_to64();
    }
    let pixel_count: usize = sw * sh;
    let mut pixel_index: usize = 0;
    let num_bits: u32 = log2_floor(palette_count - 1) + 1;
    let unit: u8 = 1u8 << num_bits;
    proof {
        lemma_u8_shl_is_mul(1, num_bits as u8);
        assert(unit == pow2(num_bits as nat));
    }

    let mut x: usize = 0;
    let mut y: usize = 0;
    let ghost mut colors: Seq<Seq<u8>> = Seq::empty();

    while r.remaining() > 0
        invariant
            r.wf(),
            r.data@ == data@,
            0 < palette_count <= 127,
            palette_count == pal.len() == colors_of@.len(),
            forall|i: int| 0 <= i < pal.len() ==> pal[i] == (#[trigger] colors_of@[i])@,
            unit == pow2(index_bits(pal.len() as int) as nat),
            0 < unit,
            w * h * 4 <= usize::MAX,
            out@.len() == old(out)@.len() == w * h * 4,
            x_start + sw <= w,
            y_start + sh <= h,
            pixel_count == sw * sh,
            pixel_index == colors.len() <= pixel_count,
            sw > 0 ==> x == colors.len() as int % sw as int && y == colors.len() as int / sw as int,
            out@ == paint::paint(
                old(out)@,
                w as int,
                x_start as int,
                y_start as int,
                sw as int,
                colors,
            ),
            rlex(data@, sw * sh) == rlex_colors(data@, r.pos as int, pal, colors, sw * sh),
        decreases data@.len() - r.pos,
    {
        let head: u8 = r.u8()?;
        let (run, _) = read_run_length(&mut r)?;
        let run: usize = run as usize;

        let suite_depth: u8 = head / unit;
        let stop_index: u8 = head % unit;
        if suite_depth > stop_index || stop_index >= palette_count {
            return Err(ClearDecodeError("RLEX palette index out of range"));
        }
        let start_index: u8 = stop_index - suite_depth;

        if run > pixel_count - pixel_index {
            return Err(ClearDecodeError("RLEX background run overflows rect"));
        }
        let ghost before = colors;
        let bg: [u8; 4] = colors_of[start_index as usize];
        let mut i: usize = 0;
        while i < run
            invariant
                i <= run <= pixel_count - before.len(),
                w * h * 4 <= usize::MAX,
                out@.len() == old(out)@.len() == w * h * 4,
                x_start + sw <= w,
                y_start + sh <= h,
                pixel_count == sw * sh,
                sw > 0 ==> x == colors.len() as int % sw as int && y == colors.len() as int
                    / sw as int,
                colors == before + paint::repeated(bg@, i as int),
                out@ == paint::paint(
                    old(out)@,
                    w as int,
                    x_start as int,
                    y_start as int,
                    sw as int,
                    colors,
                ),
            decreases run - i,
        {
            proof {
                paint::lemma_paint_next(
                    old(out)@,
                    w as int,
                    h as int,
                    x_start as int,
                    y_start as int,
                    sw as int,
                    sh as int,
                    colors,
                    bg@,
                );
                colors = colors.push(bg@);
                assert(colors =~= before + paint::repeated(bg@, i + 1));
            }
            put(out, w, h, x_start, y_start, sw, &mut x, &mut y, bg);
            i = i + 1;
        }
        pixel_index = pixel_index + run;

        let suite_len: usize = suite_depth as usize + 1;
        if suite_len > pixel_count - pixel_index {
            return Err(ClearDecodeError("RLEX suite overflows rect"));
        }
        let ghost filled = colors;
        let mut s: usize = 0;
        while s < suite_len
            invariant
                s <= suite_len <= pixel_count - filled.len(),
                suite_len == suite_depth + 1,
                start_index + suite_depth == stop_index,
                stop_index < pal.len(),
                palette_count == pal.len() == colors_of@.len(),
                forall|i: int| 0 <= i < pal.len() ==> pal[i] == (#[trigger] colors_of@[i])@,
                w * h * 4 <= usize::MAX,
                out@.len() == old(out)@.len() == w * h * 4,
                x_start + sw <= w,
                y_start + sh <= h,
                pixel_count == sw * sh,
                sw > 0 ==> x == colors.len() as int % sw as int && y == colors.len() as int
                    / sw as int,
                colors == filled + pal.subrange(start_index as int, start_index + s),
                out@ == paint::paint(
                    old(out)@,
                    w as int,
                    x_start as int,
                    y_start as int,
                    sw as int,
                    colors,
                ),
            decreases suite_len - s,
        {
            let color: [u8; 4] = colors_of[start_index as usize + s];
            proof {
                paint::lemma_paint_next(
                    old(out)@,
                    w as int,
                    h as int,
                    x_start as int,
                    y_start as int,
                    sw as int,
                    sh as int,
                    colors,
                    color@,
                );
                colors = colors.push(color@);
                assert(colors =~= filled + pal.subrange(start_index as int, start_index + s + 1));
            }
            put(out, w, h, x_start, y_start, sw, &mut x, &mut y, color);
            s = s + 1;
        }
        pixel_index = pixel_index + suite_len;
    }

    if pixel_index != pixel_count {
        return Err(ClearDecodeError("RLEX does not cover rect"));
    }
    Ok(())
}

/// Copies a rectangle of raw BGR pixels, rows tightly packed, into `out`.
fn copy_raw(
    data: &[u8],
    sw: usize,
    sh: usize,
    x_start: usize,
    y_start: usize,
    w: usize,
    h: usize,
    out: &mut [u8],
)
    requires
        w * h * 4 <= usize::MAX,
        old(out)@.len() == w * h * 4,
        x_start + sw <= w,
        y_start + sh <= h,
        data@.len() == sw * sh * 3,
    ensures
        final(out)@.len() == old(out)@.len(),
        final(out)@ == paint::paint(
            old(out)@,
            w as int,
            x_start as int,
            y_start as int,
            sw as int,
            paint::bgr_to_rgba(data@),
        ),
{
    let mut x: usize = 0;
    let mut y: usize = 0;
    let mut at: usize = 0;
    let ghost mut colors: Seq<Seq<u8>> = Seq::empty();
    while at < data.len()
        invariant
            w * h * 4 <= usize::MAX,
            out@.len() == old(out)@.len() == w * h * 4,
            x_start + sw <= w,
            y_start + sh <= h,
            data@.len() == sw * sh * 3,
            at == 3 * colors.len(),
            colors.len() <= sw * sh,
            sw > 0 ==> x == colors.len() as int % sw as int && y == colors.len() as int / sw as int,
            colors =~= paint::bgr_to_rgba(data@).take(colors.len() as int),
            out@ == paint::paint(
                old(out)@,
                w as int,
                x_start as int,
                y_start as int,
                sw as int,
                colors,
            ),
        decreases data@.len() - at,
    {
        let color: [u8; 4] = [data[at + 2], data[at + 1], data[at], 0xFF];
        proof {
            assert(color@ =~= paint::bgr_to_rgba(data@)[colors.len() as int]);
            paint::lemma_paint_next(
                old(out)@,
                w as int,
                h as int,
                x_start as int,
                y_start as int,
                sw as int,
                sh as int,
                colors,
                color@,
            );
            colors = colors.push(color@);
        }
        put(out, w, h, x_start, y_start, sw, &mut x, &mut y, color);
        at = at + 3;
    }
    assert(colors =~= paint::bgr_to_rgba(data@));
}

/// The outcome of the layer from `p` on: the painted buffer, and how the layer ends. Each
/// rectangle has its corner, its size, the number of its bytes, its codec and its bytes.
pub open spec fn subcodec_layer(s: Seq<u8>, p: int, w: int, h: int, out: Seq<u8>) -> (
    Seq<u8>,
    Result<(), Seq<char>>,
)
    decreases s.len() - p,
{
    if p >= s.len() {
        (out, Ok(()))
    } else if p + 13 > s.len() || p + 13 + bytes::le32(s, p + 8) > s.len() {
        (out, Err("stream underrun"@))
    } else {
        let x = bytes::le16(s, p);
        let y = bytes::le16(s, p + 2);
        let sw = bytes::le16(s, p + 4);
        let sh = bytes::le16(s, p + 6);
        let size = bytes::le32(s, p + 8);
        let data = s.subrange(p + 13, p + 13 + size);
        if x + sw > w || y + sh > h {
            (out, Err("subcodec rect outside destination"@))
        } else if s[p + 12] == 0 {
            if size != sw * sh * 3 {
                (out, Err("raw subcodec size mismatch"@))
            } else {
                subcodec_layer(
                    s,
                    p + 13 + size,
                    w,
                    h,
                    paint::paint(out, w, x, y, sw, paint::bgr_to_rgba(data)),
                )
            }
        } else if s[p + 12] == 2 {
            let (colors, end) = rlex(data, sw * sh);
            let painted = paint::paint(out, w, x, y, sw, colors);
            match end {
                Ok(_) => subcodec_layer(s, p + 13 + size, w, h, painted),
                Err(message) => (painted, Err(message)),
            }
        } else if s[p + 12] == 1 {
            (out, Err("NSCodec subcodec not supported"@))
        } else {
            (out, Err("unknown subcodec id"@))
        }
    }
}

/// Decodes the subcodec layer into `out`.
pub fn decode_subcodecs(layer: &[u8], w: usize, h: usize, out: &mut [u8]) -> (res: ClearResult<()>)
    requires
        w * h * 4 <= usize::MAX,
        old(out)@.len() == w * h * 4,
    ensures
        final(out)@.len() == old(out)@.len(),
        ({
            let (painted, end) = subcodec_layer(layer@, 0, w as int, h as int, old(out)@);
            &&& final(out)@ == painted
            &&& match end {
                Ok(_) => res is Ok,
                Err(message) => res matches Err(e) && e.0@ == message,
            }
        }),
{
    let mut r = Reader::new(layer);

    while r.remaining() > 0
        invariant
            r.wf(),
            r.data@ == layer@,
            w * h * 4 <= usize::MAX,
            out@.len() == old(out)@.len() == w * h * 4,
            subcodec_layer(layer@, 0, w as int, h as int, old(out)@) == subcodec_layer(
                layer@,
                r.pos as int,
                w as int,
                h as int,
                out@,
            ),
        decreases layer@.len() - r.pos,
    {
        let x_start: usize = r.u16()? as usize;
        let y_start: usize = r.u16()? as usize;
        let sw: usize = r.u16()? as usize;
        let sh: usize = r.u16()? as usize;
        let byte_count: usize = r.u32()? as usize;
        let subcodec_id: u8 = r.u8()?;
        let data = r.bytes(byte_count)?;

        if x_start + sw > w || y_start + sh > h {
            return Err(ClearDecodeError("subcodec rect outside destination"));
        }
        if subcodec_id == 0 {
            assert(0 <= sw * sh && sw * sh * 3 <= w * h * 4) by (nonlinear_arith)
                requires
                    0 <= sw <= w,
                    0 <= sh <= h,
            ;
            if byte_count != sw * sh * 3 {
                return Err(ClearDecodeError("raw subcodec size mismatch"));
            }
            copy_raw(data, sw, sh, x_start, y_start, w, h, out);
        } else if subcodec_id == 2 {
            decode_rlex(data, sw, sh, x_start, y_start, w, h, out)?;
        } else if subcodec_id == 1 {
            return Err(ClearDecodeError("NSCodec subcodec not supported"));
        } else {
            return Err(ClearDecodeError("unknown subcodec id"));
        }
    }
    Ok(())
}

} // verus!
