//! Why a stream is refused, and what it has painted by then.

use crate::clear_codec::bands::BarCaches;
use crate::clear_codec::decoder::{ClearOutcome, ClearState};
use crate::clear_codec::runs::{Piece, Run};
use crate::clear_codec::{
    bands, columns, decoder, laws, paint, rectangles, residual, runs, streams, subcodec,
};
use vstd::prelude::*;

verus! {

/// Why a destination is refused.
pub proof fn law_destination_is_refused_for_its_first_fault(
    state: ClearState,
    src: Seq<u8>,
    w: int,
    h: int,
    out: Seq<u8>,
)
    requires
        0 <= w,
        0 <= h,
        !streams::is_destination(w, h, out) || src.len() < 2,
    ensures
        decoder::clear_decode(state, src, w, h, out).res == Err::<(), Seq<char>>(
            if w == 0 || h == 0 {
                "empty destination rectangle"@
            } else if w * h > 0x100_0000 {
                "destination rectangle too large"@
            } else if out.len() != 4 * (w * h) {
                "output buffer size mismatch"@
            } else {
                "stream underrun"@
            },
        ),
{
}

/// Why a stream is refused before its layers: bit 0 of the first byte tells that it names a glyph,
/// and bit 1 that it hits one.
pub open spec fn early_fault(
    state: ClearState,
    src: Seq<u8>,
    w: int,
    h: int,
    out: Seq<u8>,
) -> Option<Seq<char>> {
    if src[0] % 2 == 0 {
        if src[0] / 2 % 2 == 1 {
            Some("GLYPH_HIT without GLYPH_INDEX"@)
        } else if src.len() < 14 {
            Some("missing composition payload header"@)
        } else {
            None
        }
    } else if w * h > 0x10_0000 {
        Some("glyph rect larger than 1024x1024"@)
    } else if src.len() < 4 {
        Some("stream underrun"@)
    } else if rectangles::pair(src, 2) >= 4000 {
        Some("glyph index out of range"@)
    } else if src[0] / 2 % 2 == 1 {
        if state.glyphs[rectangles::pair(src, 2)].len() < out.len() {
            Some("glyph cache entry smaller than rect"@)
        } else {
            None
        }
    } else if src.len() < 16 {
        Some("missing composition payload header"@)
    } else {
        None
    }
}

/// A stream that is refused before its layers is refused for its first fault, and paints nothing.
pub proof fn law_stream_is_refused_for_its_first_fault(
    state: ClearState,
    src: Seq<u8>,
    w: int,
    h: int,
    out: Seq<u8>,
)
    requires
        streams::is_destination(w, h, out),
        src.len() >= 2,
        early_fault(state, src, w, h, out) is Some,
    ensures
        ({
            let o = decoder::clear_decode(state, src, w, h, out);
            &&& streams::is_begun(state, o.state, src[0], src[1])
            &&& o.out == out
            &&& o.res == Err::<(), Seq<char>>(early_fault(state, src, w, h, out)->0)
        }),
{
    streams::law_stream_is_begun(state, src[0], src[1]);
    if src[0] % 2 == 0 {
        lemma_refused_plain(state, src, w, h, out);
    } else {
        lemma_refused_named(state, src, w, h, out);
    }
}

proof fn lemma_refused_plain(state: ClearState, src: Seq<u8>, w: int, h: int, out: Seq<u8>)
    requires
        streams::is_destination(w, h, out),
        src.len() >= 2,
        src[0] % 2 == 0,
        early_fault(state, src, w, h, out) is Some,
    ensures
        decoder::clear_decode(state, src, w, h, out) == (ClearOutcome {
            state: state.begin(src[0], src[1]),
            out,
            res: Err(early_fault(state, src, w, h, out)->0),
        }),
{
    streams::lemma_flags(src[0]);
    lemma_no_sizes(state.begin(src[0], src[1]), src, 2, w, h, out);
}

proof fn lemma_refused_named(state: ClearState, src: Seq<u8>, w: int, h: int, out: Seq<u8>)
    requires
        streams::is_destination(w, h, out),
        src.len() >= 2,
        src[0] % 2 == 1,
        early_fault(state, src, w, h, out) is Some,
    ensures
        decoder::clear_decode(state, src, w, h, out) == (ClearOutcome {
            state: state.begin(src[0], src[1]),
            out,
            res: Err(early_fault(state, src, w, h, out)->0),
        }),
{
    let begun = state.begin(src[0], src[1]);
    streams::lemma_flags(src[0]);
    assert(decoder::clear_decode(state, src, w, h, out) == decoder::decode_glyph(
        begun,
        src,
        w,
        h,
        out,
    ));
    lemma_no_sizes(begun, src, 4, w, h, out);
}

proof fn lemma_no_sizes(state: ClearState, src: Seq<u8>, p: int, w: int, h: int, out: Seq<u8>)
    ensures
        p + 12 > src.len() ==> decoder::composition(state, src, p, w, h, out) == (ClearOutcome {
            state,
            out,
            res: Err("missing composition payload header"@),
        }),
{
}

/// Why a band is refused for its header.
pub proof fn law_band_is_refused_for_its_first_fault(
    c: BarCaches,
    s: Seq<u8>,
    w: int,
    h: int,
    out: Seq<u8>,
)
    requires
        0 < s.len() < 11 || s.len() >= 11 && (rectangles::pair(s, 2) < rectangles::pair(s, 0)
            || rectangles::pair(s, 6) < rectangles::pair(s, 4) || columns::rows(s) > 52),
    ensures
        bands::bands_layer(c, s, 0, w, h, out).2 == Err::<(), Seq<char>>(
            if s.len() < 11 {
                "stream underrun"@
            } else if rectangles::pair(s, 2) < rectangles::pair(s, 0) {
                "band xEnd < xStart"@
            } else if rectangles::pair(s, 6) < rectangles::pair(s, 4) {
                "band yEnd < yStart"@
            } else {
                "band vBar height > 52"@
            },
        ),
{
}

/// Why the first bar of a band is refused. The two top bits of its first two bytes tell an inline
/// short bar, whose pixels follow, and a cached short bar, whose first row follows.
pub open spec fn bar_fault(s: Seq<u8>) -> Option<Seq<char>> {
    if s.len() < 13 {
        Some("stream underrun"@)
    } else if s[12] < 0x40 && s[12] < s[11] {
        Some("short vBar yOff < yOn"@)
    } else if s[12] < 0x40 && s[12] - s[11] > 52 {
        Some("short vBar pixel count > 52"@)
    } else if s[12] < 0x40 && s.len() < 13 + 3 * (s[12] - s[11]) {
        Some("stream underrun"@)
    } else if 0x40 <= s[12] < 0x80 && s.len() < 14 {
        Some("stream underrun"@)
    } else {
        None
    }
}

/// A bar that is refused paints nothing and is not cached.
pub proof fn law_bar_is_refused(c: BarCaches, s: Seq<u8>, w: int, h: int, out: Seq<u8>)
    requires
        s.len() >= 11,
        rectangles::pair(s, 0) <= rectangles::pair(s, 2),
        rectangles::pair(s, 4) <= rectangles::pair(s, 6),
        columns::rows(s) <= 52,
        bar_fault(s) is Some,
    ensures
        bands::bands_layer(c, s, 0, w, h, out) == (
            c,
            out,
            Err::<(), Seq<char>>(bar_fault(s)->0),
        ),
{
}

/// Why a rectangle of a subcodec layer is refused.
pub proof fn law_rectangle_is_refused_for_its_first_fault(
    s: Seq<u8>,
    w: int,
    h: int,
    out: Seq<u8>,
)
    requires
        rectangles::is_single_rectangle(s),
        !rectangles::lies_inside(s, w, h) || s[12] == 0 && s.len() - 13 != 3 * (rectangles::pair(
            s,
            4,
        ) * rectangles::pair(s, 6)) || s[12] == 1 || s[12] > 2,
    ensures
        subcodec::subcodec_layer(s, 0, w, h, out).1 == Err::<(), Seq<char>>(
            if !rectangles::lies_inside(s, w, h) {
                "subcodec rect outside destination"@
            } else if s[12] == 0 {
                "raw subcodec size mismatch"@
            } else if s[12] == 1 {
                "NSCodec subcodec not supported"@
            } else {
                "unknown subcodec id"@
            },
        ),
{
}

/// A rectangle that is not all there, and a palette, are refused for what they lack.
pub proof fn law_missing_bytes_are_told(s: Seq<u8>, w: int, h: int, out: Seq<u8>, total: int)
    ensures
        0 < s.len() < 13 || s.len() >= 13 && s.len() - 13 < s[8] + 0x100 * s[9] + 0x1_0000 * s[10]
            + 0x100_0000 * s[11] ==> subcodec::subcodec_layer(s, 0, w, h, out).1 == Err::<
            (),
            Seq<char>,
        >("stream underrun"@),
        s.len() > 0 && (s[0] == 0 || s[0] > 127) ==> subcodec::rlex(s, total).1 == Err::<
            (),
            Seq<char>,
        >("RLEX palette count out of range"@),
        s.len() == 0 || 1 <= s[0] <= 127 && s.len() < 1 + 3 * s[0] ==> subcodec::rlex(
            s,
            total,
        ).1 == Err::<(), Seq<char>>("stream underrun"@),
{
}

/// The bytes of `t` end before the length that they start with does.
pub open spec fn is_cut_length(t: Seq<u8>) -> bool {
    ||| t.len() == 0
    ||| t.len() < 3 && t[0] == 0xFF
    ||| t.len() < 7 && t[0] == 0xFF && t[1] == 0xFF && t[2] == 0xFF
}

proof fn lemma_cut_length(s: Seq<u8>, p: int)
    requires
        0 <= p <= s.len(),
        is_cut_length(s.skip(p)),
    ensures
        residual::run_length(s, p) == Err::<(int, int), Seq<char>>("stream underrun"@),
{
    let t = s.skip(p);
    if t.len() > 0 {
        assert(t[0] == s[p]);
    }
    if t.len() >= 3 {
        assert(t[1] == s[p + 1] && t[2] == s[p + 2]);
    }
}

/// What is wrong with a residual layer whose last bytes, behind runs of `done` of `total` pixels,
/// are `tail`: they are cut short, or their run is too long, which `code` and `n` tell, or they are
/// missing.
pub open spec fn residual_fault(
    tail: Seq<u8>,
    done: int,
    total: int,
    code: Seq<u8>,
    n: int,
) -> Option<Seq<char>> {
    if tail.len() == 0 {
        if done == total {
            None
        } else {
            Some("residual does not cover rect"@)
        }
    } else if tail.len() < 3 || is_cut_length(tail.skip(3)) {
        Some("stream underrun"@)
    } else if runs::is_length(code, n) && tail.len() >= 3 + code.len() && tail.subrange(
        3,
        3int + code.len(),
    ) == code && done + n > total {
        Some("residual run overflows rect"@)
    } else {
        None
    }
}

proof fn lemma_runs_taken(s: Seq<u8>, list: Seq<Run>, total: int)
    requires
        runs::runs_wf(list),
        runs::run_total(list) <= total,
        runs::residual_of(list).len() <= s.len(),
        s.take(runs::residual_of(list).len() as int) == runs::residual_of(list),
    ensures
        residual::residual_colors(s, 0, Seq::empty(), total) == residual::residual_colors(
            s,
            runs::residual_of(list).len() as int,
            runs::run_colors(list),
            total,
        ),
    decreases list.len(),
{
    if list.len() > 0 {
        let before = list.drop_last();
        let r = list.last();
        runs::lemma_runs_before(list, list.len() - 1);
        assert(before =~= list.take(list.len() - 1));
        let p = runs::residual_of(before).len() as int;
        let q = runs::residual_of(list).len() as int;
        assert(s.take(p) =~= s.take(q).take(p));
        lemma_runs_taken(s, before, total);
        runs::lemma_run_colors(before);
        assert(list[list.len() - 1] == r);
        assert(forall|i: int| 0 <= i < q ==> s[i] == #[trigger] s.take(q)[i]);
        assert(s[p] == s.take(q)[p]);
        assert(s[p + 1] == s.take(q)[p + 1] && s[p + 2] == s.take(q)[p + 2]);
        assert(s.subrange(p + 3, p + 3 + r.code.len()) =~= r.code) by {
            assert forall|i: int| 0 <= i < r.code.len() implies s[p + 3 + i] == r.code[i] by {
                assert(s[p + 3 + i] == s.take(q)[p + 3 + i]);
            }
        }
        runs::law_lengths_are_read(s, p + 3, r.code, r.count);
    }
}

/// A residual layer that goes wrong behind some runs has painted these runs, and nothing else.
pub proof fn law_broken_residual_shows_what_came_before(
    list: Seq<Run>,
    tail: Seq<u8>,
    code: Seq<u8>,
    n: int,
    w: int,
    h: int,
    out: Seq<u8>,
    px: int,
    py: int,
    i: int,
)
    requires
        runs::runs_wf(list),
        runs::run_total(list) <= w * h,
        residual_fault(tail, runs::run_total(list), w * h, code, n) is Some,
        out.len() == w * h * 4,
        0 <= px < w,
        0 <= py < h,
        0 <= i < 4,
    ensures
        ({
            let s = runs::residual_of(list) + tail;
            let (painted, end) = residual::residual_layer(s, w, h, out);
            let k = py * w + px;
            &&& end == Err::<(), Seq<char>>(
                residual_fault(tail, runs::run_total(list), w * h, code, n)->0,
            )
            &&& painted.len() == out.len()
            &&& painted[4 * k + i] == if k < runs::run_total(list) {
                runs::run_color(list, k)[i]
            } else {
                out[4 * k + i]
            }
        }),
{
    let s = runs::residual_of(list) + tail;
    let p = runs::residual_of(list).len() as int;
    let colors = runs::run_colors(list);
    assert(s.take(p) =~= runs::residual_of(list));
    lemma_runs_taken(s, list, w * h);
    runs::lemma_run_colors(list);
    if tail.len() >= 3 {
        assert(s.skip(p + 3) =~= tail.skip(3));
        if is_cut_length(tail.skip(3)) {
            lemma_cut_length(s, p + 3);
        } else {
            assert(s.subrange(p + 3, p + 3 + code.len()) =~= tail.subrange(3, 3int + code.len()));
            runs::law_lengths_are_read(s, p + 3, code, n);
        }
    }
    assert(residual::residual_colors(s, p, colors, w * h).0 == colors);
    paint::lemma_paint_len(out, w, 0, 0, w, colors);
    assert(0 <= py * w) by (nonlinear_arith)
        requires
            0 <= py,
            0 <= w,
    ;
    laws::law_paint_sets_the_rectangle_only(out, w, h, 0, 0, w, h, colors, px, py, i);
}

/// What is wrong with a palette rectangle of `count` colors whose last bytes, behind pieces of
/// `done` of `total` pixels, are `tail`: they are cut short, name a color that is not there, or
/// have too many pixels, or they are missing. Where the run fits and what follows it does not, the
/// run has been painted: the number tells how many more pixels have.
pub open spec fn piece_fault(
    tail: Seq<u8>,
    count: int,
    done: int,
    total: int,
    code: Seq<u8>,
    n: int,
) -> Option<(Seq<char>, int)> {
    let steps = tail[0] as int / runs::step_unit(count);
    let stop = tail[0] as int % runs::step_unit(count);
    if tail.len() == 0 {
        if done == total {
            None
        } else {
            Some(("RLEX does not cover rect"@, 0))
        }
    } else if is_cut_length(tail.skip(1)) {
        Some(("stream underrun"@, 0))
    } else if runs::is_length(code, n) && tail.len() >= 1 + code.len() && tail.subrange(
        1,
        1int + code.len(),
    ) == code {
        if stop < steps || stop >= count {
            Some(("RLEX palette index out of range"@, 0))
        } else if done + n > total {
            Some(("RLEX background run overflows rect"@, 0))
        } else if done + n + steps + 1 > total {
            Some(("RLEX suite overflows rect"@, n))
        } else {
            None
        }
    } else {
        None
    }
}

proof fn lemma_pieces_taken(
    s: Seq<u8>,
    at: int,
    pal: Seq<Seq<u8>>,
    pieces: Seq<Piece>,
    total: int,
)
    requires
        1 <= pal.len() <= 127,
        runs::pieces_wf(pieces, pal.len() as int),
        runs::piece_total(pieces) <= total,
        0 <= at,
        at + runs::pieces_of(pieces, pal.len() as int).len() <= s.len(),
        s.subrange(at, at + runs::pieces_of(pieces, pal.len() as int).len()) == runs::pieces_of(
            pieces,
            pal.len() as int,
        ),
    ensures
        subcodec::rlex_colors(s, at, pal, Seq::empty(), total) == subcodec::rlex_colors(
            s,
            at + runs::pieces_of(pieces, pal.len() as int).len(),
            pal,
            runs::piece_colors(pieces, pal),
            total,
        ),
    decreases pieces.len(),
{
    let n = pal.len() as int;
    if pieces.len() > 0 {
        let before = pieces.drop_last();
        let r = pieces.last();
        runs::lemma_pieces_before(pieces, n, pieces.len() - 1);
        assert(before =~= pieces.take(pieces.len() - 1));
        let p = runs::pieces_of(before, n).len() as int;
        let q = runs::pieces_of(pieces, n).len() as int;
        let body = s.subrange(at, at + q);
        assert(s.subrange(at, at + p) =~= body.take(p));
        lemma_pieces_taken(s, at, pal, before, total);
        runs::lemma_piece_colors(before, pal);
        runs::lemma_unit(n);
        assert(pieces[pieces.len() - 1] == r);
        let unit = runs::step_unit(n);
        let depth = r.stop - r.start;
        let first_byte = depth * unit + r.stop;
        assert(0 <= depth * unit) by (nonlinear_arith)
            requires
                0 <= depth,
                0 <= unit,
        ;
        assert(runs::pieces_of(pieces, n) == runs::pieces_of(before, n) + seq![first_byte as u8]
            + r.code);
        assert(s[at + p] == body[p]);
        assert(s[at + p] == first_byte);
        assert(s.subrange(at + p + 1, at + p + 1 + r.code.len()) =~= r.code) by {
            assert forall|i: int| 0 <= i < r.code.len() implies s[at + p + 1 + i] == r.code[i] by {
                assert(s[at + (p + 1 + i)] == body[p + 1 + i]);
            }
        }
        runs::law_lengths_are_read(s, at + p + 1, r.code, r.count);
        assert(r.stop < unit);
        runs::lemma_first_byte(first_byte, depth, r.stop, unit);
        let done = runs::piece_colors(before, pal);
        let filled = done + paint::repeated(pal[r.start], r.count);
        assert(runs::piece_colors(pieces, pal) == filled + pal.subrange(r.start, r.stop + 1));
    }
}

/// A palette rectangle that goes wrong behind some pieces has the colors of these pieces, and of
/// the run that goes wrong where only what follows the run does not fit.
pub proof fn law_broken_palette_rectangle_shows_what_came_before(
    colors: Seq<u8>,
    pieces: Seq<Piece>,
    tail: Seq<u8>,
    code: Seq<u8>,
    n: int,
    total: int,
    k: int,
)
    requires
        colors.len() % 3 == 0,
        1 <= colors.len() / 3 <= 127,
        runs::pieces_wf(pieces, colors.len() as int / 3),
        runs::piece_total(pieces) <= total,
        piece_fault(
            tail,
            colors.len() as int / 3,
            runs::piece_total(pieces),
            total,
            code,
            n,
        ) is Some,
    ensures
        ({
            let count = colors.len() as int / 3;
            let done = runs::piece_total(pieces);
            let s = runs::palette_rectangle(colors, pieces) + tail;
            let (list, end) = subcodec::rlex(s, total);
            let (message, more) = piece_fault(tail, count, done, total, code, n)->0;
            let unit = runs::step_unit(count);
            let c = 3 * if k < done {
                runs::piece_index(pieces, k)
            } else {
                tail[0] as int % unit - tail[0] as int / unit
            };
            &&& end == Err::<(), Seq<char>>(message)
            &&& list.len() == done + more
            &&& 0 <= k < list.len() ==> list[k] == seq![
                colors[c + 2],
                colors[c + 1],
                colors[c],
                0xFFu8,
            ]
        }),
{
    let count = colors.len() as int / 3;
    let done = runs::piece_total(pieces);
    let front = runs::palette_rectangle(colors, pieces);
    let s = front + tail;
    let pal = subcodec::palette(s);
    let at = 1 + 3 * count;
    let unit = runs::step_unit(count);
    assert(s[0] == front[0]);
    assert(s.subrange(1, 1 + 3 * s[0]) =~= colors);
    assert(pal.len() == count);
    let p = front.len() as int;
    assert(s.subrange(at, p) =~= runs::pieces_of(pieces, count));
    lemma_pieces_taken(s, at, pal, pieces, total);
    runs::lemma_piece_colors(pieces, pal);
    runs::lemma_unit(count);
    if tail.len() > 0 {
        assert(s[p] == tail[0]);
        assert(s.skip(p + 1) =~= tail.skip(1));
        if is_cut_length(tail.skip(1)) {
            lemma_cut_length(s, p + 1);
        } else {
            assert(s.subrange(p + 1, p + 1 + code.len()) =~= tail.subrange(1, 1int + code.len()));
            runs::law_lengths_are_read(s, p + 1, code, n);
        }
    }
    let (list, end) = subcodec::rlex(s, total);
    if 0 <= k < list.len() {
        let j = if k < done {
            runs::piece_index(pieces, k)
        } else {
            tail[0] as int % unit - tail[0] as int / unit
        };
        if k < done {
            runs::lemma_piece_color(pieces, pal, k);
        }
        assert(list[k] == pal[j]);
        assert(pal[j] =~= seq![colors[3 * j + 2], colors[3 * j + 1], colors[3 * j], 0xFFu8]);
    }
}

} // verus!
