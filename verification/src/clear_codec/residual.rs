//! The residual layer: a run-length encoded background for the whole rectangle.

use crate::bytes;
use crate::clear_codec::paint;
use crate::clear_codec::paint::set_pixel;
use crate::clear_codec::reader::{ClearDecodeError, ClearResult, Reader};
use vstd::arithmetic::div_mod::*;
use vstd::arithmetic::mul::*;
use vstd::prelude::*;

verus! {

/// The run length that is encoded at `p`, and how many bytes it takes: one byte, escaped to 16
/// bits by 0xFF, escaped to 32 bits by 0xFFFF.
pub open spec fn run_length(s: Seq<u8>, p: int) -> Result<(int, int), Seq<char>> {
    if p + 1 > s.len() {
        Err("stream underrun"@)
    } else if s[p] < 0xFF {
        Ok((s[p] as int, 1))
    } else if p + 3 > s.len() {
        Err("stream underrun"@)
    } else if bytes::le16(s, p + 1) < 0xFFFF {
        Ok((bytes::le16(s, p + 1), 3))
    } else if p + 7 > s.len() {
        Err("stream underrun"@)
    } else {
        Ok((bytes::le32(s, p + 3), 7))
    }
}

/// Reads a run length. Returns its value and the number of bytes it took.
pub fn read_run_length(r: &mut Reader<'_>) -> (res: ClearResult<(u32, usize)>)
    requires
        old(r).wf(),
    ensures
        final(r).wf(),
        final(r).data@ == old(r).data@,
        match run_length(old(r).data@, old(r).pos as int) {
            Ok((value, used)) => {
                &&& res matches Ok((v, n)) && v == value && n == used
                &&& final(r).pos == old(r).pos + used
            },
            Err(message) => res matches Err(e) && e.0@ == message,
        },
{
    let first: u8 = r.u8()?;
    if first < 0xFF {
        return Ok((first as u32, 1));
    }
    let second: u16 = r.u16()?;
    if second < 0xFFFF {
        return Ok((second as u32, 3));
    }
    let third: u32 = r.u32()?;
    Ok((third, 7))
}

/// The colors that the layer paints from `p` on, after `done` of the `total` pixels, and how it
/// ends.
pub open spec fn residual_colors(s: Seq<u8>, p: int, done: Seq<Seq<u8>>, total: int) -> (
    Seq<Seq<u8>>,
    Result<(), Seq<char>>,
)
    decreases s.len() - p,
{
    if p >= s.len() {
        if done.len() == total {
            (done, Ok(()))
        } else {
            (done, Err("residual does not cover rect"@))
        }
    } else if p + 3 > s.len() {
        (done, Err("stream underrun"@))
    } else {
        match run_length(s, p + 3) {
            Err(message) => (done, Err(message)),
            Ok((run, used)) => if done.len() + run > total {
                (done, Err("residual run overflows rect"@))
            } else {
                residual_colors(
                    s,
                    p + 3 + used,
                    done + paint::repeated(paint::rgba(s[p + 2], s[p + 1], s[p]), run),
                    total,
                )
            },
        }
    }
}

/// The outcome of the layer: the painted buffer, and whether it covers the rectangle.
pub open spec fn residual_layer(s: Seq<u8>, w: int, h: int, out: Seq<u8>) -> (
    Seq<u8>,
    Result<(), Seq<char>>,
) {
    let (colors, res) = residual_colors(s, 0, Seq::empty(), w * h);
    (paint::paint(out, w, 0, 0, w, colors), res)
}

/// Decodes the residual layer into `out`. It must cover exactly `w * h` pixels.
pub fn decode_residual(layer: &[u8], w: usize, h: usize, out: &mut [u8]) -> (res: ClearResult<()>)
    requires
        w * h * 4 <= usize::MAX,
        old(out)@.len() == w * h * 4,
    ensures
        final(out)@.len() == old(out)@.len(),
        ({
            let (painted, end) = residual_layer(layer@, w as int, h as int, old(out)@);
            &&& final(out)@ == painted
            &&& match end {
                Ok(_) => res is Ok,
                Err(message) => res matches Err(e) && e.0@ == message,
            }
        }),
{
    let mut r = Reader::new(layer);
    assert(0 <= w * h <= w * h * 4) by (nonlinear_arith)
        requires
            w >= 0,
            h >= 0,
    ;
    let pixel_count: usize = w * h;
    let mut pixel_index: usize = 0;
    let ghost mut colors: Seq<Seq<u8>> = Seq::empty();

    while r.remaining() > 0
        invariant
            r.wf(),
            r.data@ == layer@,
            pixel_count == w * h,
            w * h * 4 <= usize::MAX,
            out@.len() == old(out)@.len() == w * h * 4,
            pixel_index == colors.len() <= pixel_count,
            out@ == paint::paint(old(out)@, w as int, 0, 0, w as int, colors),
            residual_colors(layer@, 0, Seq::empty(), w * h) == residual_colors(
                layer@,
                r.pos as int,
                colors,
                w * h,
            ),
        decreases layer@.len() - r.pos,
    {
        let ghost start = r.pos as int;
        let b: u8 = r.u8()?;
        let g: u8 = r.u8()?;
        let red: u8 = r.u8()?;
        let (run, _) = read_run_length(&mut r)?;
        let run: usize = run as usize;

        if run > pixel_count - pixel_index {
            return Err(ClearDecodeError("residual run overflows rect"));
        }
        let color: [u8; 4] = [red, g, b, 0xFF];
        let ghost before = colors;
        assert(color@ =~= paint::rgba(red, g, b));
        let mut i: usize = 0;
        while i < run
            invariant
                i <= run <= pixel_count - before.len(),
                pixel_count == w * h,
                w * h * 4 <= usize::MAX,
                pixel_index == before.len(),
                out@.len() == old(out)@.len() == w * h * 4,
                colors == before + paint::repeated(color@, i as int),
                out@ == paint::paint(old(out)@, w as int, 0, 0, w as int, colors),
            decreases run - i,
        {
            proof {
                assert(0 < w) by (nonlinear_arith)
                    requires
                        0 < w * h,
                        0 <= w,
                ;
                lemma_fundamental_div_mod((pixel_index + i) as int, w as int);
                lemma_mul_is_commutative(w as int, (pixel_index + i) as int / w as int);
                paint::lemma_paint_push(old(out)@, w as int, 0, 0, w as int, colors, color@);
                colors = colors.push(color@);
                assert(colors =~= before + paint::repeated(color@, i + 1));
            }
            set_pixel(out, pixel_index + i, color);
            i = i + 1;
        }
        pixel_index = pixel_index + run;
    }
    if pixel_index != pixel_count {
        return Err(ClearDecodeError("residual does not cover rect"));
    }
    Ok(())
}

} // verus!
