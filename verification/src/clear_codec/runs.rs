//! What run-length codes stand for.
//!
//! What is said here starts from what is meant, a list of runs, and says what becomes of its code.

use crate::clear_codec::{laws, paint, residual, subcodec};
use vstd::arithmetic::logarithm::*;
use vstd::arithmetic::power2::*;
use vstd::prelude::*;

verus! {

/// The bytes of `code` stand for a length of `n`: a byte below 0xFF, or two bytes behind 0xFF that
/// are below 0xFFFF, or four bytes behind three of 0xFF.
pub open spec fn is_length(code: Seq<u8>, n: int) -> bool {
    ||| code.len() == 1 && code[0] < 0xFF && n == code[0]
    ||| {
        &&& code.len() == 3 && code[0] == 0xFF
        &&& n == code[1] + 0x100 * code[2] && n < 0xFFFF
    }
    ||| {
        &&& code.len() == 7 && code[0] == 0xFF && code[1] == 0xFF && code[2] == 0xFF
        &&& n == code[3] + 0x100 * code[4] + 0x1_0000 * code[5] + 0x100_0000 * code[6]
    }
}

/// A length is read from its code, wherever that stands.
pub proof fn law_lengths_are_read(s: Seq<u8>, p: int, code: Seq<u8>, n: int)
    requires
        0 <= p,
        p + code.len() <= s.len(),
        s.subrange(p, p + code.len()) == code,
        is_length(code, n),
    ensures
        residual::run_length(s, p) == Ok::<(int, int), Seq<char>>((n, code.len() as int)),
        0 <= n,
{
    assert forall|i: int| 0 <= i < code.len() implies s[p + i] == code[i] by {
        assert(s.subrange(p, p + code.len())[i] == s[p + i]);
    }
    assert(s[p + 0] == code[0]);
    if code.len() >= 3 {
        assert(s[p + 1] == code[1] && s[p + 2] == code[2]);
    }
    if code.len() == 7 {
        assert(s[p + 3] == code[3] && s[p + 4] == code[4] && s[p + 5] == code[5] && s[p + 6]
            == code[6]);
    }
}

/// A run of pixels of one color, with the code of its length.
pub struct Run {
    pub red: u8,
    pub green: u8,
    pub blue: u8,
    pub count: int,
    pub code: Seq<u8>,
}

/// The codes are those of the lengths.
pub open spec fn runs_wf(runs: Seq<Run>) -> bool {
    forall|j: int| 0 <= j < runs.len() ==> is_length((#[trigger] runs[j]).code, runs[j].count)
}

/// A residual layer: for every run its color, blue first, and its length.
pub open spec fn residual_of(runs: Seq<Run>) -> Seq<u8>
    decreases runs.len(),
{
    if runs.len() == 0 {
        Seq::empty()
    } else {
        let last = runs.last();
        residual_of(runs.drop_last()) + seq![last.blue, last.green, last.red] + last.code
    }
}

/// How many pixels the runs have.
pub open spec fn run_total(runs: Seq<Run>) -> int
    decreases runs.len(),
{
    if runs.len() == 0 {
        0
    } else {
        run_total(runs.drop_last()) + runs.last().count
    }
}

/// The color of the `k`-th pixel of the runs.
pub open spec fn run_color(runs: Seq<Run>, k: int) -> Seq<u8>
    decreases runs.len(),
{
    if runs.len() == 0 {
        Seq::empty()
    } else if k >= run_total(runs.drop_last()) {
        seq![runs.last().red, runs.last().green, runs.last().blue, 0xFF]
    } else {
        run_color(runs.drop_last(), k)
    }
}

pub(crate) open spec fn run_colors(runs: Seq<Run>) -> Seq<Seq<u8>>
    decreases runs.len(),
{
    if runs.len() == 0 {
        Seq::empty()
    } else {
        let last = runs.last();
        run_colors(runs.drop_last()) + paint::repeated(
            paint::rgba(last.red, last.green, last.blue),
            last.count,
        )
    }
}

pub(crate) proof fn lemma_run_colors(runs: Seq<Run>)
    requires
        runs_wf(runs),
    ensures
        run_colors(runs).len() == run_total(runs),
        forall|k: int|
            0 <= k < run_total(runs) ==> #[trigger] run_colors(runs)[k] == run_color(runs, k),
    decreases runs.len(),
{
    if runs.len() > 0 {
        let before = runs.drop_last();
        lemma_runs_before(runs, runs.len() - 1);
        assert(before =~= runs.take(runs.len() - 1));
        lemma_run_colors(before);
        assert(runs[runs.len() - 1] == runs.last());
        assert(runs.last().count >= 0);
    }
}

pub(crate) proof fn lemma_runs_before(runs: Seq<Run>, j: int)
    requires
        runs_wf(runs),
        0 <= j <= runs.len(),
    ensures
        runs_wf(runs.take(j)),
        run_total(runs.take(j)) <= run_total(runs),
        residual_of(runs.take(j)).len() <= residual_of(runs).len(),
        residual_of(runs).take(residual_of(runs.take(j)).len() as int) == residual_of(
            runs.take(j),
        ),
    decreases runs.len(),
{
    assert forall|i: int| 0 <= i < j implies is_length(
        (#[trigger] runs.take(j)[i]).code,
        runs.take(j)[i].count,
    ) by {
        assert(runs.take(j)[i] == runs[i]);
    }
    if j == runs.len() {
        assert(runs.take(j) =~= runs);
        assert(residual_of(runs).take(residual_of(runs).len() as int) =~= residual_of(runs));
    } else {
        let before = runs.drop_last();
        assert forall|i: int| 0 <= i < before.len() implies is_length(
            (#[trigger] before[i]).code,
            before[i].count,
        ) by {
            assert(before[i] == runs[i]);
        }
        lemma_runs_before(before, j);
        assert(before.take(j) =~= runs.take(j));
        assert(runs[runs.len() - 1] == runs.last());
        let n = residual_of(runs.take(j)).len() as int;
        assert(residual_of(runs).take(n) =~= residual_of(before).take(n));
    }
}

proof fn lemma_residual_from(runs: Seq<Run>, j: int, total: int)
    requires
        runs_wf(runs),
        0 <= j <= runs.len(),
        run_total(runs.take(j)) <= total,
    ensures
        ({
            let end = residual::residual_colors(
                residual_of(runs),
                residual_of(runs.take(j)).len() as int,
                run_colors(runs.take(j)),
                total,
            );
            &&& end.1 is Ok <==> run_total(runs) == total
            &&& end.1 is Ok ==> end.0 == run_colors(runs)
        }),
    decreases runs.len() - j,
{
    let s = residual_of(runs);
    let p = residual_of(runs.take(j)).len() as int;
    lemma_runs_before(runs, j);
    lemma_run_colors(runs.take(j));
    if j == runs.len() {
        assert(runs.take(j) =~= runs);
    } else {
        let r = runs[j];
        let next = runs.take(j + 1);
        lemma_runs_before(runs, j + 1);
        assert(next.drop_last() =~= runs.take(j));
        assert(next.last() == r);
        let one = seq![r.blue, r.green, r.red];
        assert(residual_of(next) == residual_of(runs.take(j)) + one + r.code);
        let q = residual_of(next).len() as int;
        assert(forall|i: int| 0 <= i < q ==> s[i] == #[trigger] s.take(q)[i]);
        assert(s[p] == s.take(q)[p]);
        assert(s[p + 1] == s.take(q)[p + 1] && s[p + 2] == s.take(q)[p + 2]);
        assert(s.subrange(p + 3, p + 3 + r.code.len()) =~= r.code) by {
            assert forall|i: int| 0 <= i < r.code.len() implies s[p + 3 + i] == r.code[i] by {
                assert(s[p + 3 + i] == s.take(q)[p + 3 + i]);
            }
        }
        law_lengths_are_read(s, p + 3, r.code, r.count);
        if run_total(next) <= total {
            lemma_residual_from(runs, j + 1, total);
        }
    }
}

/// A residual layer shows its runs: it ends well if and only if they have as many pixels as the
/// rectangle, and then every pixel, row by row, has the color of its run.
pub proof fn law_residual_shows_its_runs(
    runs: Seq<Run>,
    w: int,
    h: int,
    out: Seq<u8>,
    px: int,
    py: int,
    i: int,
)
    requires
        runs_wf(runs),
        out.len() == w * h * 4,
        0 <= px < w,
        0 <= py < h,
        0 <= i < 4,
    ensures
        ({
            let (painted, end) = residual::residual_layer(residual_of(runs), w, h, out);
            &&& end is Ok <==> run_total(runs) == w * h
            &&& painted.len() == out.len()
            &&& end is Ok ==> painted[4 * (py * w + px) + i] == run_color(runs, py * w + px)[i]
        }),
{
    assert(runs.take(0) =~= Seq::empty());
    assert(0 <= w * h) by (nonlinear_arith)
        requires
            0 <= w,
            0 <= h,
    ;
    assert(0 <= py * w && py * w + w <= w * h) by (nonlinear_arith)
        requires
            0 <= py < h,
            0 <= w,
    ;
    lemma_residual_from(runs, 0, w * h);
    let colors = residual::residual_colors(residual_of(runs), 0, Seq::empty(), w * h).0;
    paint::lemma_paint_len(out, w, 0, 0, w, colors);
    if run_total(runs) == w * h {
        lemma_run_colors(runs);
        laws::law_paint_sets_the_rectangle_only(out, w, h, 0, 0, w, h, colors, px, py, i);
    }
}

/// A piece of a palette rectangle: `count` pixels of color `start`, and then one of each color from
/// `start` to `stop`.
pub struct Piece {
    pub start: int,
    pub stop: int,
    pub count: int,
    pub code: Seq<u8>,
}

/// What the step from `start` to `stop` counts in the first byte of a piece: the least power of two
/// that the numbers of the palette's colors are below, and two at least.
pub open spec fn step_unit(colors: int) -> int {
    if colors <= 2 {
        2
    } else if colors <= 4 {
        4
    } else if colors <= 8 {
        8
    } else if colors <= 16 {
        16
    } else if colors <= 32 {
        32
    } else if colors <= 64 {
        64
    } else {
        128
    }
}

/// The pieces refer to the palette, and their first bytes hold them.
pub open spec fn pieces_wf(pieces: Seq<Piece>, colors: int) -> bool {
    forall|j: int|
        0 <= j < pieces.len() ==> {
            let piece = #[trigger] pieces[j];
            &&& is_length(piece.code, piece.count)
            &&& 0 <= piece.start <= piece.stop < colors
            &&& (piece.stop - piece.start) * step_unit(colors) + piece.stop < 0x100
        }
}

/// The pieces: for each its first byte and the length of its run.
pub open spec fn pieces_of(pieces: Seq<Piece>, colors: int) -> Seq<u8>
    decreases pieces.len(),
{
    if pieces.len() == 0 {
        Seq::empty()
    } else {
        let last = pieces.last();
        let first_byte = (last.stop - last.start) * step_unit(colors) + last.stop;
        pieces_of(pieces.drop_last(), colors) + seq![first_byte as u8] + last.code
    }
}

/// How many pixels the pieces have.
pub open spec fn piece_total(pieces: Seq<Piece>) -> int
    decreases pieces.len(),
{
    if pieces.len() == 0 {
        0
    } else {
        let last = pieces.last();
        piece_total(pieces.drop_last()) + last.count + (last.stop - last.start + 1)
    }
}

/// The number of the color of the `k`-th pixel of the pieces.
pub open spec fn piece_index(pieces: Seq<Piece>, k: int) -> int
    decreases pieces.len(),
{
    if pieces.len() == 0 {
        0
    } else {
        let last = pieces.last();
        let before = piece_total(pieces.drop_last());
        if k < before {
            piece_index(pieces.drop_last(), k)
        } else if k < before + last.count {
            last.start
        } else {
            last.start + (k - before - last.count)
        }
    }
}

/// A palette rectangle: the number of its colors, the colors, blue first, and the pieces.
pub open spec fn palette_rectangle(colors: Seq<u8>, pieces: Seq<Piece>) -> Seq<u8> {
    seq![(colors.len() / 3) as u8] + colors + pieces_of(pieces, colors.len() as int / 3)
}

pub(crate) open spec fn piece_colors(pieces: Seq<Piece>, pal: Seq<Seq<u8>>) -> Seq<Seq<u8>>
    decreases pieces.len(),
{
    if pieces.len() == 0 {
        Seq::empty()
    } else {
        let last = pieces.last();
        piece_colors(pieces.drop_last(), pal) + paint::repeated(pal[last.start], last.count)
            + pal.subrange(last.start, last.stop + 1)
    }
}

pub(crate) proof fn lemma_pieces_before(pieces: Seq<Piece>, colors: int, j: int)
    requires
        pieces_wf(pieces, colors),
        0 <= j <= pieces.len(),
    ensures
        pieces_wf(pieces.take(j), colors),
        piece_total(pieces.take(j)) <= piece_total(pieces),
        pieces_of(pieces.take(j), colors).len() <= pieces_of(pieces, colors).len(),
        pieces_of(pieces, colors).take(pieces_of(pieces.take(j), colors).len() as int) == pieces_of(
            pieces.take(j),
            colors,
        ),
    decreases pieces.len(),
{
    assert(pieces_wf(pieces.take(j), colors)) by {
        assert forall|i: int| 0 <= i < j implies pieces.take(j)[i] == pieces[i] by {}
    }
    if j == pieces.len() {
        assert(pieces.take(j) =~= pieces);
        let s = pieces_of(pieces, colors);
        assert(s.take(s.len() as int) =~= s);
    } else {
        let before = pieces.drop_last();
        assert(pieces_wf(before, colors)) by {
            assert forall|i: int| 0 <= i < before.len() implies before[i] == pieces[i] by {}
        }
        lemma_pieces_before(before, colors, j);
        assert(before.take(j) =~= pieces.take(j));
        assert(pieces[pieces.len() - 1] == pieces.last());
        let n = pieces_of(pieces.take(j), colors).len() as int;
        assert(pieces_of(pieces, colors).take(n) =~= pieces_of(before, colors).take(n));
    }
}

pub(crate) proof fn lemma_piece_colors(pieces: Seq<Piece>, pal: Seq<Seq<u8>>)
    requires
        pieces_wf(pieces, pal.len() as int),
    ensures
        piece_colors(pieces, pal).len() == piece_total(pieces),
    decreases pieces.len(),
{
    if pieces.len() > 0 {
        let before = pieces.drop_last();
        lemma_pieces_before(pieces, pal.len() as int, pieces.len() - 1);
        assert(before =~= pieces.take(pieces.len() - 1));
        lemma_piece_colors(before, pal);
        assert(pieces[pieces.len() - 1] == pieces.last());
    }
}

pub(crate) proof fn lemma_piece_color(pieces: Seq<Piece>, pal: Seq<Seq<u8>>, k: int)
    requires
        pieces_wf(pieces, pal.len() as int),
        0 <= k < piece_total(pieces),
    ensures
        0 <= piece_index(pieces, k) < pal.len(),
        piece_colors(pieces, pal)[k] == pal[piece_index(pieces, k)],
    decreases pieces.len(),
{
    if pieces.len() > 0 {
        let before = pieces.drop_last();
        let last = pieces.last();
        let n = piece_total(before);
        lemma_pieces_before(pieces, pal.len() as int, pieces.len() - 1);
        assert(before =~= pieces.take(pieces.len() - 1));
        assert(pieces[pieces.len() - 1] == last);
        lemma_piece_colors(before, pal);
        if k < n {
            lemma_piece_color(before, pal, k);
        } else if k >= n + last.count {
            let suite = pal.subrange(last.start, last.stop + 1);
            assert(piece_colors(pieces, pal)[k] == suite[k - n - last.count]);
        }
    }
}

pub(crate) proof fn lemma_unit(colors: int)
    requires
        1 <= colors <= 127,
    ensures
        pow2(subcodec::index_bits(colors) as nat) == step_unit(colors),
{
    lemma2_to64();
    let n = colors - 1;
    lemma_log0(2, 0);
    lemma_log0(2, 1);
    lemma_log_s(2, 2);
    lemma_log_s(2, 3);
    lemma_log_s(2, 4);
    lemma_log_s(2, 7);
    lemma_log_s(2, 8);
    lemma_log_s(2, 15);
    lemma_log_s(2, 16);
    lemma_log_s(2, 31);
    lemma_log_s(2, 32);
    lemma_log_s(2, 63);
    lemma_log_s(2, 64);
    lemma_log_s(2, 127);
    assert(log(2, 1) == 0 && log(2, 2) == 1 && log(2, 3) == 1);
    assert(log(2, 4) == 2 && log(2, 7) == 2);
    assert(log(2, 8) == 3 && log(2, 15) == 3);
    assert(log(2, 16) == 4 && log(2, 31) == 4);
    assert(log(2, 32) == 5 && log(2, 63) == 5);
    assert(log(2, 64) == 6 && log(2, 127) == 6);
    if 2 <= n <= 3 {
        lemma_log_is_ordered(2, 2, n);
        lemma_log_is_ordered(2, n, 3);
    } else if 4 <= n <= 7 {
        lemma_log_is_ordered(2, 4, n);
        lemma_log_is_ordered(2, n, 7);
    } else if 8 <= n <= 15 {
        lemma_log_is_ordered(2, 8, n);
        lemma_log_is_ordered(2, n, 15);
    } else if 16 <= n <= 31 {
        lemma_log_is_ordered(2, 16, n);
        lemma_log_is_ordered(2, n, 31);
    } else if 32 <= n <= 63 {
        lemma_log_is_ordered(2, 32, n);
        lemma_log_is_ordered(2, n, 63);
    } else if n >= 64 {
        lemma_log_is_ordered(2, 64, n);
        lemma_log_is_ordered(2, n, 127);
    }
}

pub(crate) proof fn lemma_first_byte(b: int, depth: int, stop: int, unit: int)
    requires
        b == depth * unit + stop,
        0 <= stop < unit,
        0 <= depth,
    ensures
        b / unit == depth,
        b % unit == stop,
{
    vstd::arithmetic::div_mod::lemma_fundamental_div_mod_converse(b, unit, depth, stop);
}

proof fn lemma_pieces_from(
    s: Seq<u8>,
    at: int,
    pal: Seq<Seq<u8>>,
    pieces: Seq<Piece>,
    j: int,
    total: int,
)
    requires
        1 <= pal.len() <= 127,
        pieces_wf(pieces, pal.len() as int),
        0 <= j <= pieces.len(),
        piece_total(pieces.take(j)) <= total,
        0 <= at <= s.len(),
        s.skip(at) == pieces_of(pieces, pal.len() as int),
    ensures
        ({
            let end = subcodec::rlex_colors(
                s,
                at + pieces_of(pieces.take(j), pal.len() as int).len(),
                pal,
                piece_colors(pieces.take(j), pal),
                total,
            );
            &&& end.1 is Ok <==> piece_total(pieces) == total
            &&& end.1 is Ok ==> end.0 == piece_colors(pieces, pal)
        }),
    decreases pieces.len() - j,
{
    let n = pal.len() as int;
    let body = s.skip(at);
    let p = pieces_of(pieces.take(j), n).len() as int;
    lemma_pieces_before(pieces, n, j);
    lemma_piece_colors(pieces.take(j), pal);
    lemma_unit(n);
    if j == pieces.len() {
        assert(pieces.take(j) =~= pieces);
    } else {
        let r = pieces[j];
        let next = pieces.take(j + 1);
        lemma_pieces_before(pieces, n, j + 1);
        assert(next.drop_last() =~= pieces.take(j));
        assert(next.last() == r);
        let unit = step_unit(n);
        let depth = r.stop - r.start;
        let first_byte = depth * unit + r.stop;
        assert(0 <= depth * unit) by (nonlinear_arith)
            requires
                0 <= depth,
                0 <= unit,
        ;
        assert(pieces_of(next, n) == pieces_of(pieces.take(j), n) + seq![first_byte as u8]
            + r.code);
        let q = pieces_of(next, n).len() as int;
        assert(body.take(q) == pieces_of(next, n));
        assert(forall|i: int| 0 <= i < q ==> body[i] == #[trigger] body.take(q)[i]);
        assert(s[at + p] == body[p] && body[p] == body.take(q)[p]);
        assert(s[at + p] == first_byte);
        assert(s.subrange(at + p + 1, at + p + 1 + r.code.len()) =~= r.code) by {
            assert forall|i: int| 0 <= i < r.code.len() implies s[at + p + 1 + i] == r.code[i] by {
                assert(body[p + 1 + i] == body.take(q)[p + 1 + i]);
                assert(s[at + (p + 1 + i)] == body[p + 1 + i]);
            }
        }
        law_lengths_are_read(s, at + p + 1, r.code, r.count);
        assert(r.stop < unit);
        lemma_first_byte(first_byte, depth, r.stop, unit);
        let done = piece_colors(pieces.take(j), pal);
        let filled = done + paint::repeated(pal[r.start], r.count);
        assert(piece_colors(next, pal) == filled + pal.subrange(r.start, r.stop + 1));
        if piece_total(next) <= total {
            lemma_pieces_from(s, at, pal, pieces, j + 1, total);
        }
    }
}

/// A palette rectangle shows its pieces: it ends well if and only if they have as many pixels as
/// the rectangle, and then every pixel has the color that its piece says.
pub proof fn law_palette_rectangle_shows_its_pieces(
    colors: Seq<u8>,
    pieces: Seq<Piece>,
    total: int,
    k: int,
)
    requires
        colors.len() % 3 == 0,
        1 <= colors.len() / 3 <= 127,
        pieces_wf(pieces, colors.len() as int / 3),
        0 <= k < total,
    ensures
        ({
            let (list, end) = subcodec::rlex(palette_rectangle(colors, pieces), total);
            let c = 3 * piece_index(pieces, k);
            &&& end is Ok <==> piece_total(pieces) == total
            &&& end is Ok ==> {
                &&& list.len() == total
                &&& list[k] == seq![colors[c + 2], colors[c + 1], colors[c], 0xFFu8]
            }
        }),
{
    let s = palette_rectangle(colors, pieces);
    let n = colors.len() as int / 3;
    let pal = subcodec::palette(s);
    let at = 1 + 3 * n;
    assert(s.subrange(1, 1 + 3 * s[0]) =~= colors);
    assert(pal.len() == n);
    assert(s.skip(at) =~= pieces_of(pieces, n));
    assert(pieces.take(0) =~= Seq::empty());
    lemma_pieces_from(s, at, pal, pieces, 0, total);
    if piece_total(pieces) == total {
        lemma_piece_colors(pieces, pal);
        lemma_piece_color(pieces, pal, k);
        let c = 3 * piece_index(pieces, k);
        assert(pal[piece_index(pieces, k)] =~= seq![
            colors[c + 2],
            colors[c + 1],
            colors[c],
            0xFFu8,
        ]);
    }
}

/// A palette has from one to 127 colors, all of which must be there.
pub proof fn law_palettes_have_limits(s: Seq<u8>, total: int)
    requires
        s.len() == 0 || s[0] == 0 || s[0] > 127 || s.len() < 1 + 3 * s[0],
    ensures
        subcodec::rlex(s, total).1 is Err,
        subcodec::rlex(s, total).0.len() == 0,
{
}

} // verus!
