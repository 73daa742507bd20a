//! A composition is the sum of its layers.

use crate::bytes;
use crate::clear_codec::decoder::{
    ClearOutcome, ClearState, FLAG_CACHE_RESET, FLAG_GLYPH_HIT, FLAG_GLYPH_INDEX,
};
use crate::clear_codec::{bands, decoder, laws, residual, subcodec};
use vstd::prelude::*;

verus! {

/// The stream without glyph that has the given layers.
pub open spec fn stream_of(
    flags: u8,
    number: u8,
    residual: Seq<u8>,
    bands: Seq<u8>,
    subcodecs: Seq<u8>,
) -> Seq<u8> {
    seq![flags, number] + bytes::le32_bytes(residual.len() as u32) + bytes::le32_bytes(
        bands.len() as u32,
    ) + bytes::le32_bytes(subcodecs.len() as u32) + residual + bands + subcodecs
}

/// The effect of one more stream, on what the ones before left, if they ended well.
pub open spec fn then_decode(before: ClearOutcome, src: Seq<u8>, w: int, h: int) -> ClearOutcome {
    if before.res is Ok {
        decoder::clear_decode(before.state, src, w, h, before.out)
    } else {
        before
    }
}

/// The effect of three layers, one after the other.
spec fn layers(
    state: ClearState,
    first: Seq<u8>,
    second: Seq<u8>,
    third: Seq<u8>,
    w: int,
    h: int,
    out: Seq<u8>,
) -> ClearOutcome {
    let a = if first.len() > 0 {
        residual::residual_layer(first, w, h, out)
    } else {
        (out, Ok(()))
    };
    if a.1 is Err {
        ClearOutcome { state, out: a.0, res: a.1 }
    } else {
        let b = if second.len() > 0 {
            bands::bands_layer(state.bars, second, 0, w, h, a.0)
        } else {
            (state.bars, a.0, Ok(()))
        };
        let state = ClearState { bars: b.0, ..state };
        if b.2 is Err {
            ClearOutcome { state, out: b.1, res: b.2 }
        } else {
            let c = if third.len() > 0 {
                subcodec::subcodec_layer(third, 0, w, h, b.1)
            } else {
                (b.1, Ok(()))
            };
            ClearOutcome { state, out: c.0, res: c.1 }
        }
    }
}

proof fn lemma_stream_of(
    flags: u8,
    number: u8,
    first: Seq<u8>,
    second: Seq<u8>,
    third: Seq<u8>,
)
    requires
        first.len() <= u32::MAX,
        second.len() <= u32::MAX,
        third.len() <= u32::MAX,
    ensures
        ({
            let s = stream_of(flags, number, first, second, third);
            let p = 14 + first.len() as int;
            let q = p + second.len();
            let r = q + third.len();
            &&& s.len() == r
            &&& s[0] == flags
            &&& s[1] == number
            &&& bytes::le32(s, 2) == first.len()
            &&& bytes::le32(s, 6) == second.len()
            &&& bytes::le32(s, 10) == third.len()
            &&& s.subrange(14, p) == first
            &&& s.subrange(p, q) == second
            &&& s.subrange(q, r) == third
        }),
{
    let s = stream_of(flags, number, first, second, third);
    let p = 14 + first.len() as int;
    let q = p + second.len();
    let r = q + third.len();
    assert(s.subrange(2, 6) =~= bytes::le32_bytes(first.len() as u32));
    bytes::lemma_le32_read_back(first.len() as u32, s, 2);
    assert(s.subrange(6, 10) =~= bytes::le32_bytes(second.len() as u32));
    bytes::lemma_le32_read_back(second.len() as u32, s, 6);
    assert(s.subrange(10, 14) =~= bytes::le32_bytes(third.len() as u32));
    bytes::lemma_le32_read_back(third.len() as u32, s, 10);
    assert(s.subrange(14, p) =~= first);
    assert(s.subrange(p, q) =~= second);
    assert(s.subrange(q, r) =~= third);
}

/// A stream's effect is that of its layers.
proof fn lemma_stream_is_its_layers(
    state: ClearState,
    flags: u8,
    number: u8,
    first: Seq<u8>,
    second: Seq<u8>,
    third: Seq<u8>,
    w: int,
    h: int,
    out: Seq<u8>,
)
    requires
        flags & FLAG_GLYPH_INDEX == 0,
        flags & FLAG_GLYPH_HIT == 0,
        first.len() <= u32::MAX,
        second.len() <= u32::MAX,
        third.len() <= u32::MAX,
        w != 0,
        h != 0,
        w * h <= 1024 * 1024 * 16,
        out.len() == w * h * 4,
    ensures
        ({
            let s = stream_of(flags, number, first, second, third);
            let o = decoder::clear_decode(state, s, w, h, out);
            &&& o == layers(state.begin(flags, number), first, second, third, w, h, out)
            &&& o.out.len() == out.len()
        }),
{
    let s = stream_of(flags, number, first, second, third);
    lemma_stream_of(flags, number, first, second, third);
    laws::lemma_same_composition(state.begin(flags, number), s, 2, w, h, out, out);
}

/// A stream of three layers does what three streams of one layer each do, one after the other: to
/// the destination, to the caches, and to how it ends, where an error is the last that happens. The
/// sequence numbers play no part.
pub proof fn law_layers_can_come_one_by_one(
    state: ClearState,
    flags: u8,
    later_flags: u8,
    numbers: (u8, u8, u8, u8),
    first: Seq<u8>,
    second: Seq<u8>,
    third: Seq<u8>,
    w: int,
    h: int,
    out: Seq<u8>,
)
    requires
        flags & FLAG_GLYPH_INDEX == 0,
        flags & FLAG_GLYPH_HIT == 0,
        later_flags & FLAG_GLYPH_INDEX == 0,
        later_flags & FLAG_GLYPH_HIT == 0,
        later_flags & FLAG_CACHE_RESET == 0,
        first.len() <= u32::MAX,
        second.len() <= u32::MAX,
        third.len() <= u32::MAX,
    ensures
        ({
            let none = Seq::<u8>::empty();
            let whole = stream_of(flags, numbers.0, first, second, third);
            let s1 = stream_of(flags, numbers.1, first, none, none);
            let s2 = stream_of(later_flags, numbers.2, none, second, none);
            let s3 = stream_of(later_flags, numbers.3, none, none, third);
            let at_once = decoder::clear_decode(state, whole, w, h, out);
            let o1 = decoder::clear_decode(state, s1, w, h, out);
            let o2 = then_decode(o1, s2, w, h);
            let o3 = then_decode(o2, s3, w, h);
            &&& o3.out == at_once.out
            &&& o3.res == at_once.res
            &&& o3.state.bars == at_once.state.bars
            &&& o3.state.glyphs == at_once.state.glyphs
        }),
{
    if w != 0 && h != 0 && w * h <= 1024 * 1024 * 16 && out.len() == w * h * 4 {
        let none = Seq::<u8>::empty();
        let s1 = stream_of(flags, numbers.1, first, none, none);
        let s2 = stream_of(later_flags, numbers.2, none, second, none);
        lemma_stream_is_its_layers(state, flags, numbers.0, first, second, third, w, h, out);
        lemma_stream_is_its_layers(state, flags, numbers.1, first, none, none, w, h, out);
        let o1 = decoder::clear_decode(state, s1, w, h, out);
        if o1.res is Ok {
            lemma_stream_is_its_layers(
                o1.state,
                later_flags,
                numbers.2,
                none,
                second,
                none,
                w,
                h,
                o1.out,
            );
            let o2 = decoder::clear_decode(o1.state, s2, w, h, o1.out);
            if o2.res is Ok {
                lemma_stream_is_its_layers(
                    o2.state,
                    later_flags,
                    numbers.3,
                    none,
                    none,
                    third,
                    w,
                    h,
                    o2.out,
                );
            }
        }
    }
}

/// A rectangle that a stream can be decoded into, with a destination of its size, four bytes to a
/// pixel.
pub open spec fn is_destination(w: int, h: int, out: Seq<u8>) -> bool {
    &&& 0 < w
    &&& 0 < h
    &&& w * h <= 0x100_0000
    &&& out.len() == w * h * 4
}

/// What the first two bytes of a stream do: the next sequence number is awaited, and a reset, the
/// third of the flags, sends the cursors of the bar caches to their start. Nothing else changes.
pub open spec fn is_begun(before: ClearState, after: ClearState, flags: u8, number: u8) -> bool {
    &&& after.seq_number == (number + 1) % 0x100
    &&& after.seq_started
    &&& after.glyphs == before.glyphs
    &&& after.bars.vbars == before.bars.vbars
    &&& after.bars.shorts == before.bars.shorts
    &&& if flags / 4 % 2 == 1 {
        after.bars.vbar_cursor == 0 && after.bars.short_cursor == 0
    } else {
        after.bars == before.bars
    }
}

pub(crate) proof fn lemma_flags(flags: u8)
    ensures
        flags & FLAG_GLYPH_INDEX != 0 <==> flags % 2 == 1,
        flags & FLAG_GLYPH_HIT != 0 <==> flags / 2 % 2 == 1,
        flags & FLAG_CACHE_RESET != 0 <==> flags / 4 % 2 == 1,
{
    assert(flags & 1 != 0 <==> flags % 2 == 1) by (bit_vector);
    assert(flags & 2 != 0 <==> flags / 2 % 2 == 1) by (bit_vector);
    assert(flags & 4 != 0 <==> flags / 4 % 2 == 1) by (bit_vector);
}

/// There is one way to end well.
proof fn lemma_good_end(end: Result<(), Seq<char>>)
    ensures
        end is Ok ==> end == Ok::<(), Seq<char>>(()),
{
    if let Ok(u) = end {
        assert(u == ());
    }
}

/// Beginning a stream.
pub proof fn law_stream_is_begun(state: ClearState, flags: u8, number: u8)
    ensures
        is_begun(state, state.begin(flags, number), flags, number),
{
    lemma_flags(flags);
}

/// A stream with a residual layer alone does what the layer does, and leaves the caches as they
/// are.
pub proof fn law_residual_stream_does_what_its_layer_does(
    state: ClearState,
    flags: u8,
    number: u8,
    layer: Seq<u8>,
    w: int,
    h: int,
    out: Seq<u8>,
)
    requires
        flags % 4 == 0,
        0 < layer.len() <= u32::MAX,
        is_destination(w, h, out),
    ensures
        ({
            let none = Seq::<u8>::empty();
            let src = stream_of(flags, number, layer, none, none);
            let o = decoder::clear_decode(state, src, w, h, out);
            &&& is_begun(state, o.state, flags, number)
            &&& (o.out, o.res) == residual::residual_layer(layer, w, h, out)
        }),
{
    let none = Seq::<u8>::empty();
    lemma_flags(flags);
    lemma_stream_is_its_layers(state, flags, number, layer, none, none, w, h, out);
    lemma_good_end(residual::residual_layer(layer, w, h, out).1);
}

/// A stream with a bands layer alone does what the layer does with the caches as they are once the
/// stream is begun.
pub proof fn law_bands_stream_does_what_its_layer_does(
    state: ClearState,
    flags: u8,
    number: u8,
    layer: Seq<u8>,
    w: int,
    h: int,
    out: Seq<u8>,
)
    requires
        flags % 4 == 0,
        0 < layer.len() <= u32::MAX,
        is_destination(w, h, out),
    ensures
        ({
            let none = Seq::<u8>::empty();
            let src = stream_of(flags, number, none, layer, none);
            let o = decoder::clear_decode(state, src, w, h, out);
            let begun = state.begin(flags, number);
            &&& (o.state.bars, o.out, o.res) == bands::bands_layer(
                begun.bars,
                layer,
                0,
                w,
                h,
                out,
            )
            &&& o.state == (ClearState { bars: o.state.bars, ..begun })
        }),
{
    let none = Seq::<u8>::empty();
    lemma_flags(flags);
    lemma_stream_is_its_layers(state, flags, number, none, layer, none, w, h, out);
    let begun = state.begin(flags, number);
    lemma_good_end(bands::bands_layer(begun.bars, layer, 0, w, h, out).2);
}

/// A stream with a subcodec layer alone does what the layer does, and leaves the caches as they
/// are.
pub proof fn law_subcodec_stream_does_what_its_layer_does(
    state: ClearState,
    flags: u8,
    number: u8,
    layer: Seq<u8>,
    w: int,
    h: int,
    out: Seq<u8>,
)
    requires
        flags % 4 == 0,
        0 < layer.len() <= u32::MAX,
        is_destination(w, h, out),
    ensures
        ({
            let none = Seq::<u8>::empty();
            let src = stream_of(flags, number, none, none, layer);
            let o = decoder::clear_decode(state, src, w, h, out);
            &&& is_begun(state, o.state, flags, number)
            &&& (o.out, o.res) == subcodec::subcodec_layer(layer, 0, w, h, out)
        }),
{
    let none = Seq::<u8>::empty();
    lemma_flags(flags);
    lemma_stream_is_its_layers(state, flags, number, none, none, layer, w, h, out);
}

/// Nothing is decoded, and nothing changes, where the rectangle is empty or too large, where the
/// destination is not of its size, and where there are no two bytes to begin with.
pub proof fn law_unfit_destination_is_refused(
    state: ClearState,
    src: Seq<u8>,
    w: int,
    h: int,
    out: Seq<u8>,
)
    requires
        0 <= w,
        0 <= h,
        !is_destination(w, h, out) || src.len() < 2,
    ensures
        ({
            let o = decoder::clear_decode(state, src, w, h, out);
            o.state == state && o.out == out && o.res is Err
        }),
{
}

/// The layers are read from where they start.
#[verifier::rlimit(30)]
proof fn lemma_composition_shifts(
    state: ClearState,
    a: Seq<u8>,
    p: int,
    b: Seq<u8>,
    q: int,
    w: int,
    h: int,
    out: Seq<u8>,
)
    requires
        0 <= p <= a.len(),
        0 <= q <= b.len(),
        a.skip(p) == b.skip(q),
    ensures
        decoder::composition(state, a, p, w, h, out) == decoder::composition(
            state,
            b,
            q,
            w,
            h,
            out,
        ),
{
    assert(a.skip(p).len() == a.len() - p);
    assert(b.skip(q).len() == b.len() - q);
    assert forall|i: int| 0 <= i < a.len() - p implies #[trigger] a[p + i] == b[q + i] by {
        assert(a.skip(p)[i] == a[p + i]);
        assert(b.skip(q)[i] == b[q + i]);
    }
    if p + 12 <= a.len() {
        assert(a[p + 0] == b[q + 0] && a[p + 1] == b[q + 1] && a[p + 2] == b[q + 2] && a[p + 3]
            == b[q + 3] && a[p + 4] == b[q + 4] && a[p + 5] == b[q + 5] && a[p + 6] == b[q + 6]
            && a[p + 7] == b[q + 7] && a[p + 8] == b[q + 8] && a[p + 9] == b[q + 9] && a[p + 10]
            == b[q + 10] && a[p + 11] == b[q + 11]);
        let m = 12 + bytes::le32(a, p);
        let n = m + bytes::le32(a, p + 4);
        let e = n + bytes::le32(a, p + 8);
        if p + m <= a.len() {
            lemma_same_part(a, p, b, q, 12, m);
        }
        if p + n <= a.len() {
            lemma_same_part(a, p, b, q, m, n);
        }
        if p + e <= a.len() {
            lemma_same_part(a, p, b, q, n, e);
        }
    }
}

proof fn lemma_same_part(a: Seq<u8>, p: int, b: Seq<u8>, q: int, from: int, to: int)
    requires
        0 <= p,
        0 <= q,
        0 <= from <= to,
        p + to <= a.len(),
        q + to <= b.len(),
        forall|i: int| 0 <= i < a.len() - p ==> #[trigger] a[p + i] == b[q + i],
    ensures
        a.subrange(p + from, p + to) == b.subrange(q + from, q + to),
{
    let x = a.subrange(p + from, p + to);
    let y = b.subrange(q + from, q + to);
    assert forall|i: int| 0 <= i < to - from implies x[i] == y[i] by {
        assert(x[i] == a[p + (from + i)]);
        assert(y[i] == b[q + (from + i)]);
    }
    assert(x =~= y);
}

/// A stream without a name is its layers, once it is begun.
proof fn lemma_plain(state: ClearState, src: Seq<u8>, w: int, h: int, out: Seq<u8>)
    requires
        src.len() >= 2,
        src[0] % 4 == 0,
        is_destination(w, h, out),
    ensures
        decoder::clear_decode(state, src, w, h, out) == decoder::composition(
            state.begin(src[0], src[1]),
            src,
            2,
            w,
            h,
            out,
        ),
{
    lemma_flags(src[0]);
}

/// A stream with a name is its layers too, and stores what they compose.
proof fn lemma_named(state: ClearState, src: Seq<u8>, w: int, h: int, out: Seq<u8>)
    requires
        src.len() >= 4,
        src[0] % 4 == 1,
        src[2] + 0x100 * src[3] < 4000,
        w * h <= 0x10_0000,
        is_destination(w, h, out),
    ensures
        ({
            let o = decoder::composition(state.begin(src[0], src[1]), src, 4, w, h, out);
            let glyphs = if o.res is Ok {
                o.state.glyphs.update(src[2] + 0x100 * src[3], o.out)
            } else {
                o.state.glyphs
            };
            decoder::clear_decode(state, src, w, h, out) == (ClearOutcome {
                state: ClearState { glyphs, ..o.state },
                ..o
            })
        }),
{
    lemma_flags(src[0]);
}

/// A stream that names a glyph composes what it would compose without the name, and stores it,
/// where it ends well, under the glyph's index. The name stands behind the first two bytes, and the
/// first of the flags tells of it.
#[verifier::spinoff_prover]
#[verifier::rlimit(40)]
pub proof fn law_named_stream_composes_like_any_other(
    state: ClearState,
    plain: Seq<u8>,
    named: Seq<u8>,
    w: int,
    h: int,
    out: Seq<u8>,
)
    requires
        plain.len() >= 2,
        named.len() >= 4,
        plain[0] % 4 == 0,
        named[0] == plain[0] + 1,
        named[1] == plain[1],
        named.skip(4) == plain.skip(2),
        is_destination(w, h, out),
        named[2] + 0x100 * named[3] < 4000,
        w * h <= 0x10_0000,
    ensures
        ({
            let a = decoder::clear_decode(state, plain, w, h, out);
            let b = decoder::clear_decode(state, named, w, h, out);
            &&& b.out == a.out
            &&& b.res == a.res
            &&& b.state.bars == a.state.bars
            &&& b.state.seq_number == a.state.seq_number
            &&& b.state.seq_started == a.state.seq_started
            &&& a.state.glyphs == state.glyphs
            &&& b.state.glyphs == if a.res is Ok {
                state.glyphs.update(named[2] + 0x100 * named[3], a.out)
            } else {
                state.glyphs
            }
        }),
{
    let begun = state.begin(plain[0], plain[1]);
    lemma_flags(plain[0]);
    lemma_flags(named[0]);
    assert(state.begin(named[0], named[1]) == begun);
    lemma_plain(state, plain, w, h, out);
    lemma_named(state, named, w, h, out);
    lemma_composition_shifts(begun, plain, 2, named, 4, w, h, out);
    lemma_composition_keeps_glyphs(begun, plain, 2, w, h, out);
}

proof fn lemma_composition_keeps_glyphs(
    state: ClearState,
    src: Seq<u8>,
    p: int,
    w: int,
    h: int,
    out: Seq<u8>,
)
    ensures
        ({
            let o = decoder::composition(state, src, p, w, h, out);
            &&& o.state.glyphs == state.glyphs
            &&& o.state.seq_number == state.seq_number
            &&& o.state.seq_started == state.seq_started
        }),
{
}

/// A stream that names a glyph is refused, and nothing is painted or stored, where the index is too
/// large, or the rectangle has more than 1024 by 1024 pixels.
pub proof fn law_unfit_glyph_is_refused(
    state: ClearState,
    flags: u8,
    number: u8,
    low: u8,
    high: u8,
    rest: Seq<u8>,
    w: int,
    h: int,
    out: Seq<u8>,
)
    requires
        flags % 2 == 1,
        is_destination(w, h, out),
        low + 0x100 * high >= 4000 || w * h > 0x10_0000,
    ensures
        ({
            let o = decoder::clear_decode(
                state,
                seq![flags, number, low, high] + rest,
                w,
                h,
                out,
            );
            is_begun(state, o.state, flags, number) && o.out == out && o.res is Err
        }),
{
    lemma_flags(flags);
}

/// A stream that hits a glyph shows the glyph's first bytes, as many as the destination has. It is
/// refused, and nothing is painted, where the index is too large, the rectangle has more than 1024
/// by 1024 pixels, or the glyph is too small. Either way the glyphs and the bars stay.
pub proof fn law_glyph_hit_shows_the_glyph(
    state: ClearState,
    flags: u8,
    number: u8,
    low: u8,
    high: u8,
    rest: Seq<u8>,
    w: int,
    h: int,
    out: Seq<u8>,
)
    requires
        state.wf(),
        flags % 4 == 3,
        is_destination(w, h, out),
    ensures
        ({
            let index = low + 0x100 * high;
            let o = decoder::clear_decode(
                state,
                seq![flags, number, low, high] + rest,
                w,
                h,
                out,
            );
            &&& is_begun(state, o.state, flags, number)
            &&& if index < 4000 && w * h <= 0x10_0000 && state.glyphs[index].len() >= out.len() {
                &&& o.res is Ok
                &&& o.out.len() == out.len()
                &&& forall|i: int|
                    0 <= i < out.len() ==> #[trigger] o.out[i] == state.glyphs[index][i]
            } else {
                o.res is Err && o.out == out
            }
        }),
{
    lemma_flags(flags);
}

/// A stream cannot hit a glyph that it does not name.
pub proof fn law_hit_needs_a_name(
    state: ClearState,
    flags: u8,
    number: u8,
    rest: Seq<u8>,
    w: int,
    h: int,
    out: Seq<u8>,
)
    requires
        flags % 4 == 2,
        is_destination(w, h, out),
    ensures
        ({
            let o = decoder::clear_decode(state, seq![flags, number] + rest, w, h, out);
            is_begun(state, o.state, flags, number) && o.out == out && o.res is Err
        }),
{
    lemma_flags(flags);
}

/// A fresh decoder's caches are there, and empty, and its cursors stand at their start.
pub proof fn law_fresh_decoder_has_nothing_cached()
    ensures
        ({
            let fresh = ClearState::initial();
            &&& !fresh.seq_started
            &&& fresh.glyphs.len() == 4000
            &&& fresh.bars.vbars.len() == 32768
            &&& fresh.bars.shorts.len() == 16384
            &&& fresh.bars.vbar_cursor == 0
            &&& fresh.bars.short_cursor == 0
            &&& forall|i: int| 0 <= i < 4000 ==> (#[trigger] fresh.glyphs[i]).len() == 0
            &&& forall|i: int| 0 <= i < 32768 ==> (#[trigger] fresh.bars.vbars[i]).len() == 0
            &&& forall|i: int| 0 <= i < 16384 ==> (#[trigger] fresh.bars.shorts[i]).len() == 0
        }),
{
}

/// What follows the layers of a stream is not looked at.
pub proof fn law_what_follows_the_layers_is_ignored(
    state: ClearState,
    flags: u8,
    number: u8,
    first: Seq<u8>,
    second: Seq<u8>,
    third: Seq<u8>,
    rest: Seq<u8>,
    w: int,
    h: int,
    out: Seq<u8>,
)
    requires
        flags % 4 == 0,
        first.len() <= u32::MAX,
        second.len() <= u32::MAX,
        third.len() <= u32::MAX,
    ensures
        ({
            let src = stream_of(flags, number, first, second, third);
            decoder::clear_decode(state, src + rest, w, h, out) == decoder::clear_decode(
                state,
                src,
                w,
                h,
                out,
            )
        }),
{
    let src = stream_of(flags, number, first, second, third);
    let s = src + rest;
    lemma_flags(flags);
    lemma_stream_of(flags, number, first, second, third);
    let p = 14 + first.len() as int;
    let q = p + second.len();
    let r = q + third.len();
    assert(s[0] == src[0] && s[1] == src[1]);
    assert(s[2] == src[2] && s[3] == src[3] && s[4] == src[4] && s[5] == src[5]);
    assert(s[6] == src[6] && s[7] == src[7] && s[8] == src[8] && s[9] == src[9]);
    assert(s[10] == src[10] && s[11] == src[11] && s[12] == src[12] && s[13] == src[13]);
    assert(s.subrange(14, p) =~= src.subrange(14, p));
    assert(s.subrange(p, q) =~= src.subrange(p, q));
    assert(s.subrange(q, r) =~= src.subrange(q, r));
}

/// Four bytes of `s` as a number, the lowest one first.
pub open spec fn announced(s: Seq<u8>, i: int) -> int {
    s[i] + 0x100 * s[i + 1] + 0x1_0000 * s[i + 2] + 0x100_0000 * s[i + 3]
}

/// A stream that ends before its first layer does paints nothing, and is refused.
pub proof fn law_missing_first_layer_is_refused(
    state: ClearState,
    src: Seq<u8>,
    w: int,
    h: int,
    out: Seq<u8>,
)
    requires
        is_destination(w, h, out),
        src.len() >= 2,
        src[0] % 4 == 0,
        src.len() < 14 || src.len() < 14 + announced(src, 2),
    ensures
        ({
            let o = decoder::clear_decode(state, src, w, h, out);
            is_begun(state, o.state, src[0], src[1]) && o.out == out && o.res is Err
        }),
{
    lemma_flags(src[0]);
}

/// A stream that ends inside its second layer is refused, once its first layer has been painted as
/// it would be by itself.
pub proof fn law_missing_second_layer_is_refused(
    state: ClearState,
    src: Seq<u8>,
    w: int,
    h: int,
    out: Seq<u8>,
)
    requires
        is_destination(w, h, out),
        src.len() >= 14,
        src[0] % 4 == 0,
        14 + announced(src, 2) <= src.len() < 14 + announced(src, 2) + announced(src, 6),
    ensures
        ({
            let none = Seq::<u8>::empty();
            let first = src.subrange(14, 14 + announced(src, 2));
            let o = decoder::clear_decode(state, src, w, h, out);
            let alone = decoder::clear_decode(
                state,
                stream_of(src[0], src[1], first, none, none),
                w,
                h,
                out,
            );
            &&& o.state == alone.state
            &&& o.out == alone.out
            &&& o.res == if alone.res is Err {
                alone.res
            } else {
                Err("stream underrun"@)
            }
        }),
{
    let none = Seq::<u8>::empty();
    let first = src.subrange(14, 14 + announced(src, 2));
    lemma_flags(src[0]);
    lemma_stream_is_its_layers(state, src[0], src[1], first, none, none, w, h, out);
}

/// A stream that ends inside its third layer is refused, once its first two layers have been
/// painted as they would be by themselves.
pub proof fn law_missing_third_layer_is_refused(
    state: ClearState,
    src: Seq<u8>,
    w: int,
    h: int,
    out: Seq<u8>,
)
    requires
        is_destination(w, h, out),
        src.len() >= 14,
        src[0] % 4 == 0,
        14 + announced(src, 2) + announced(src, 6) <= src.len(),
        src.len() < 14 + announced(src, 2) + announced(src, 6) + announced(src, 10),
    ensures
        ({
            let none = Seq::<u8>::empty();
            let p = 14 + announced(src, 2);
            let first = src.subrange(14, p);
            let second = src.subrange(p, p + announced(src, 6));
            let o = decoder::clear_decode(state, src, w, h, out);
            let alone = decoder::clear_decode(
                state,
                stream_of(src[0], src[1], first, second, none),
                w,
                h,
                out,
            );
            &&& o.state == alone.state
            &&& o.out == alone.out
            &&& o.res == if alone.res is Err {
                alone.res
            } else {
                Err("stream underrun"@)
            }
        }),
{
    let none = Seq::<u8>::empty();
    let p = 14 + announced(src, 2);
    let first = src.subrange(14, p);
    let second = src.subrange(p, p + announced(src, 6));
    lemma_flags(src[0]);
    lemma_plain(state, src, w, h, out);
    lemma_third_layer_cut(state.begin(src[0], src[1]), src, w, h, out);
    lemma_stream_is_its_layers(state, src[0], src[1], first, second, none, w, h, out);
}

proof fn lemma_third_layer_cut(state: ClearState, src: Seq<u8>, w: int, h: int, out: Seq<u8>)
    requires
        src.len() >= 14,
        14 + announced(src, 2) + announced(src, 6) <= src.len(),
        src.len() < 14 + announced(src, 2) + announced(src, 6) + announced(src, 10),
    ensures
        ({
            let p = 14 + announced(src, 2);
            let first = src.subrange(14, p);
            let second = src.subrange(p, p + announced(src, 6));
            let o = decoder::composition(state, src, 2, w, h, out);
            let alone = layers(state, first, second, Seq::empty(), w, h, out);
            &&& o.state == alone.state
            &&& o.out == alone.out
            &&& o.res == if alone.res is Err {
                alone.res
            } else {
                Err("stream underrun"@)
            }
        }),
{
}

} // verus!
