//! What the passes of a tile do to its coefficients.
//!
//! What is said here is said coefficient by coefficient, of the numbers that a stream holds.

use crate::rfx_progressive::component::Component;
use crate::rfx_progressive::decoder::Surface;
use crate::rfx_progressive::stream::{
    ComponentCodecQuant, FirstPassData, ProgressiveCodecQuant, ProgressiveRegion, ProgressiveTile,
    TileUpgrade,
};
use crate::rfx_progressive::tile::{Planes, Tile};
use crate::rfx_progressive::update::Summary;
use crate::rfx_progressive::upgrade::{Coefficients, UpgradePosition, UpgradeStreams};
use crate::rfx_progressive::{bits, component, decoder, laws, layout, tile, upgrade};
use vstd::arithmetic::mul::*;
use vstd::arithmetic::power2::*;
use vstd::prelude::*;

verus! {

/// The number of the band that coefficient `i` belongs to, in the order HL1, LH1, HH1, HL2, LH2,
/// HH2, HL3, LH3, HH3, LL3.
pub open spec fn band_number(extrapolate: bool, i: int) -> int {
    if extrapolate {
        if i < 1023 {
            0
        } else if i < 2046 {
            1
        } else if i < 3007 {
            2
        } else if i < 3279 {
            3
        } else if i < 3551 {
            4
        } else if i < 3807 {
            5
        } else if i < 3879 {
            6
        } else if i < 3951 {
            7
        } else if i < 4015 {
            8
        } else {
            9
        }
    } else {
        if i < 1024 {
            0
        } else if i < 2048 {
            1
        } else if i < 3072 {
            2
        } else if i < 3328 {
            3
        } else if i < 3584 {
            4
        } else if i < 3840 {
            5
        } else if i < 3904 {
            6
        } else if i < 3968 {
            7
        } else if i < 4032 {
            8
        } else {
            9
        }
    }
}

/// The quantization value of a band.
pub open spec fn band_value(q: ComponentCodecQuant, b: int) -> int {
    if b == 0 {
        q.hl1 as int
    } else if b == 1 {
        q.lh1 as int
    } else if b == 2 {
        q.hh1 as int
    } else if b == 3 {
        q.hl2 as int
    } else if b == 4 {
        q.lh2 as int
    } else if b == 5 {
        q.hh2 as int
    } else if b == 6 {
        q.hl3 as int
    } else if b == 7 {
        q.lh3 as int
    } else if b == 8 {
        q.hh3 as int
    } else {
        q.ll3 as int
    }
}

/// The bit position that a pass takes coefficient `i` down to: the sum of its two quantization
/// values.
pub open spec fn depth(
    q: ComponentCodecQuant,
    p: ComponentCodecQuant,
    extrapolate: bool,
    i: int,
) -> int {
    let b = band_number(extrapolate, i);
    band_value(q, b) + band_value(p, b)
}

/// Two numbers have the same low 16 bits.
pub open spec fn same_word(a: int, b: int) -> bool {
    (a - b) % 0x1_0000 == 0
}

/// The bit positions are those that a pass takes the bands down to.
pub open spec fn reaches(
    bit_pos: Seq<i32>,
    q: ComponentCodecQuant,
    p: ComponentCodecQuant,
) -> bool {
    &&& bit_pos.len() == 10
    &&& forall|b: int| 0 <= b < 10 ==> #[trigger] bit_pos[b] == band_value(q, b) + band_value(p, b)
}

/// A first pass of a component gives the coefficients `plane`: each is what the stream holds for
/// it, moved up to one below its depth, where the distance counts modulo the width of a word. For a
/// difference, what was there before is added. What is shown is what is remembered, and the signs
/// are those of the stream.
pub open spec fn is_first_pass(
    earlier: Seq<i16>,
    after: Component,
    plane: Seq<i16>,
    q: ComponentCodecQuant,
    p: ComponentCodecQuant,
    data: FirstPassData,
    difference: bool,
    extrapolate: bool,
) -> bool {
    let last = if extrapolate {
        4015int
    } else {
        4032
    };
    &&& plane.len() == 4096
    &&& forall|i: int|
        0 <= i < 4096 ==> {
            let e = depth(q, p, extrapolate, i);
            let distance = if e <= 1 {
                0
            } else {
                (e - 1) % 16
            };
            let v = if i < last {
                data.coefficients@[i]
            } else {
                data.ll3@[i - last]
            };
            same_word(
                #[trigger] plane[i] as int,
                v * pow2(distance as nat) + if difference {
                    earlier[i] as int
                } else {
                    0
                },
            )
        }
    &&& after.coefficients.current == plane
    &&& after.coefficients.sign == data.coefficients@
    &&& reaches(after.bit_pos, q, p)
}

/// How many bits coefficient `i` gains from an upgrade: as many as its depth goes down.
pub open spec fn gained(
    c: Component,
    q: ComponentCodecQuant,
    p: ComponentCodecQuant,
    i: int,
) -> int {
    let before = c.bit_pos[band_number(true, i)] as int;
    let now = depth(q, p, true, i);
    if before > now {
        before - now
    } else {
        0
    }
}

/// Coefficient `i` takes its bits from the RAW stream: its sign is known, or it is of the last
/// band.
pub open spec fn is_raw(c: Component, i: int) -> bool {
    c.coefficients.sign[i] != 0 || i >= 4015
}

/// How many bits of the RAW stream the coefficients before `i` take.
pub open spec fn raw_before(
    c: Component,
    q: ComponentCodecQuant,
    p: ComponentCodecQuant,
    i: int,
) -> int
    decreases i,
{
    if i <= 0 {
        0
    } else if is_raw(c, i - 1) {
        raw_before(c, q, p, i - 1) + gained(c, q, p, i - 1)
    } else {
        raw_before(c, q, p, i - 1)
    }
}

/// Where the SRL stream stands when it comes to coefficient `i`: behind one value for each
/// coefficient before it that gains bits and has no sign yet.
pub open spec fn srl_before(
    c: Component,
    q: ComponentCodecQuant,
    p: ComponentCodecQuant,
    srl: Seq<u8>,
    i: int,
) -> UpgradePosition
    decreases i,
{
    if i <= 0 {
        UpgradePosition { srl: 0, raw: 0, kp: 8, nz: 0, mode: false }
    } else {
        let before = srl_before(c, q, p, srl, i - 1);
        if gained(c, q, p, i - 1) >= 1 && !is_raw(c, i - 1) {
            upgrade::srl_value(srl, before, gained(c, q, p, i - 1)).0
        } else {
            before
        }
    }
}

/// What an upgrade adds to coefficient `i`, in units of its depth: a number from the RAW stream,
/// with the sign that the coefficient has, or a value from the SRL stream.
pub open spec fn addend(
    c: Component,
    q: ComponentCodecQuant,
    p: ComponentCodecQuant,
    srl: Seq<u8>,
    raw: Seq<u8>,
    i: int,
) -> int {
    let n = gained(c, q, p, i);
    if n < 1 {
        0
    } else if is_raw(c, i) {
        let v = bits::bits(raw, raw_before(c, q, p, i), n as nat);
        if i < 4015 && c.coefficients.sign[i] < 0 {
            -v
        } else {
            v
        }
    } else {
        upgrade::srl_value(srl, srl_before(c, q, p, srl, i), n).1
    }
}

/// How far the bits of an upgrade are moved up: to one below the depth.
pub open spec fn distance(q: ComponentCodecQuant, p: ComponentCodecQuant, i: int) -> nat {
    let e = depth(q, p, true, i);
    if e <= 1 {
        0
    } else {
        (e - 1) as nat
    }
}

/// An upgrade of a component gives the coefficients `plane`: to each its addend is added, moved up
/// to one below its depth. A coefficient that had no sign takes that of its value. What is shown is
/// what is remembered.
pub open spec fn is_upgrade(
    before: Component,
    after: Component,
    plane: Seq<i16>,
    q: ComponentCodecQuant,
    p: ComponentCodecQuant,
    srl: Seq<u8>,
    raw: Seq<u8>,
) -> bool {
    &&& plane.len() == 4096
    &&& after.coefficients.sign.len() == 4096
    &&& forall|i: int|
        0 <= i < 4096 ==> same_word(
            #[trigger] plane[i] as int,
            before.coefficients.current[i] + addend(before, q, p, srl, raw, i) * pow2(
                distance(q, p, i),
            ),
        )
    &&& forall|i: int|
        0 <= i < 4096 ==> #[trigger] after.coefficients.sign[i] == if gained(before, q, p, i) >= 1
            && !is_raw(before, i) {
            addend(before, q, p, srl, raw, i)
        } else {
            before.coefficients.sign[i] as int
        }
    &&& after.coefficients.current == plane
    &&& reaches(after.bit_pos, q, p)
}

proof fn lemma_band(extrapolate: bool, q: ComponentCodecQuant, b: int, i: int)
    requires
        0 <= b < 10,
        layout::band_start(extrapolate, b) <= i < layout::band_start(extrapolate, b + 1),
    ensures
        band_number(extrapolate, i) == b,
        layout::band_of(extrapolate, i) == b,
        q.bands()[b] == band_value(q, b),
{
    assert(b == 0 || b == 1 || b == 2 || b == 3 || b == 4 || b == 5 || b == 6 || b == 7 || b == 8
        || b == 9);
}

proof fn lemma_values(q: ComponentCodecQuant)
    requires
        q.wf(),
    ensures
        q.bands().len() == 10,
        forall|b: int| 0 <= b < 10 ==> #[trigger] q.bands()[b] == band_value(q, b),
        forall|b: int| 0 <= b < 10 ==> 0 <= #[trigger] band_value(q, b) <= 15,
{
    assert forall|b: int| 0 <= b < 10 implies #[trigger] q.bands()[b] == band_value(q, b) by {
        assert(b == 0 || b == 1 || b == 2 || b == 3 || b == 4 || b == 5 || b == 6 || b == 7 || b
            == 8 || b == 9);
    }
}

proof fn lemma_wrap(n: int)
    ensures
        same_word(bits::wrap16(n) as int, n),
{
}

/// A first pass moves every coefficient up to one below its depth.
pub proof fn law_first_pass_moves_coefficients_up(
    c: Component,
    q: ComponentCodecQuant,
    p: ComponentCodecQuant,
    data: FirstPassData,
    difference: bool,
    extrapolate: bool,
)
    requires
        c.wf(),
        q.wf(),
        p.wf(),
        data.wf(extrapolate),
    ensures
        ({
            let (after, end) = component::first_pass(
                c,
                q.bands(),
                p.bands(),
                Ok(data),
                difference,
                extrapolate,
            );
            end matches Ok(plane) && is_first_pass(
                c.coefficients.current,
                after,
                plane,
                q,
                p,
                data,
                difference,
                extrapolate,
            )
        }),
{
    let (after, end) = component::first_pass(
        c,
        q.bands(),
        p.bands(),
        Ok(data),
        difference,
        extrapolate,
    );
    let plane = end->Ok_0;
    let last = if extrapolate {
        4015int
    } else {
        4032
    };
    lemma_values(q);
    lemma_values(p);
    lemma2_to64();
    let shift = component::shifts(q.bands(), p.bands());
    let fresh = component::dequantized(data.coefficients@, data.ll3@, shift, extrapolate);
    assert forall|i: int| 0 <= i < 4096 implies {
        let e = depth(q, p, extrapolate, i);
        let distance = if e <= 1 {
            0
        } else {
            (e - 1) % 16
        };
        let v = if i < last {
            data.coefficients@[i]
        } else {
            data.ll3@[i - last]
        };
        same_word(
            #[trigger] plane[i] as int,
            v * pow2(distance as nat) + if difference {
                c.coefficients.current[i] as int
            } else {
                0
            },
        )
    } by {
        let b = layout::band_of(extrapolate, i);
        layout::law_bands_partition_the_tile(extrapolate, i, b);
        lemma_band(extrapolate, q, b, i);
        let v = if i < last {
            data.coefficients@[i]
        } else {
            data.ll3@[i - last]
        };
        assert(q.bands()[b] == band_value(q, b) && p.bands()[b] == band_value(p, b));
        let e = depth(q, p, extrapolate, i);
        assert(shift[b] == if e > 1 {
            e - 1
        } else {
            0
        });
        assert(fresh[i] == component::shifted(v, shift[b] as int));
        let moved = v * pow2((if e <= 1 {
            0
        } else {
            (e - 1) % 16
        }) as nat);
        assert(same_word(fresh[i] as int, moved)) by {
            lemma_wrap(moved);
            if e <= 1 {
                lemma_mul_basics(v as int);
            }
        }
        if difference {
            lemma_wrap(fresh[i] + c.coefficients.current[i]);
        }
    }
    assert forall|b: int| 0 <= b < 10 implies #[trigger] after.bit_pos[b] == band_value(q, b)
        + band_value(p, b) by {
        assert(q.bands()[b] == band_value(q, b) && p.bands()[b] == band_value(p, b));
    }
}

/// Where an upgrade stands when it comes to coefficient `i`.
spec fn position_at(
    c: Component,
    q: ComponentCodecQuant,
    p: ComponentCodecQuant,
    srl: Seq<u8>,
    i: int,
) -> UpgradePosition {
    UpgradePosition { raw: raw_before(c, q, p, i), ..srl_before(c, q, p, srl, i) }
}

/// Coefficient `i` has been refined.
spec fn refined_at(
    before: Component,
    after: Coefficients,
    q: ComponentCodecQuant,
    p: ComponentCodecQuant,
    d: UpgradeStreams,
    i: int,
) -> bool {
    &&& same_word(
        after.current[i] as int,
        before.coefficients.current[i] + addend(before, q, p, d.srl, d.raw, i) * pow2(
            distance(q, p, i),
        ),
    )
    &&& after.sign[i] == if gained(before, q, p, i) >= 1 && !is_raw(before, i) {
        addend(before, q, p, d.srl, d.raw, i)
    } else {
        before.coefficients.sign[i] as int
    }
}

/// Coefficient `i` is as it was.
spec fn kept_at(before: Component, after: Coefficients, i: int) -> bool {
    &&& after.current[i] == before.coefficients.current[i]
    &&& after.sign[i] == before.coefficients.sign[i]
}

proof fn lemma_srl_bounds(
    c: Component,
    q: ComponentCodecQuant,
    p: ComponentCodecQuant,
    srl: Seq<u8>,
    i: int,
)
    ensures
        srl_before(c, q, p, srl, i).wf(),
    decreases i,
{
    if i > 0 {
        lemma_srl_bounds(c, q, p, srl, i - 1);
        let n = gained(c, q, p, i - 1);
        if n >= 1 {
            laws::law_srl_values_keep_their_bounds(srl, srl_before(c, q, p, srl, i - 1), n);
        }
    }
}

proof fn lemma_refined_range(
    c0: Component,
    q: ComponentCodecQuant,
    p: ComponentCodecQuant,
    d: UpgradeStreams,
    c: Coefficients,
    b: int,
    i: int,
    end: int,
    shift: int,
    n: int,
)
    requires
        c0.wf(),
        c.current.len() == 4096,
        c.sign.len() == 4096,
        0 <= b < 10,
        layout::band_start(true, b) <= i <= end == layout::band_start(true, b + 1),
        n >= 1,
        0 <= shift,
        forall|j: int| i <= j < end ==> #[trigger] gained(c0, q, p, j) == n,
        forall|j: int| i <= j < end ==> #[trigger] distance(q, p, j) == shift,
        forall|j: int| i <= j < end ==> #[trigger] kept_at(c0, c, j),
    ensures
        ({
            let (next, after) = upgrade::refine(
                d,
                position_at(c0, q, p, d.srl, i),
                c,
                i,
                end,
                shift,
                n,
                b < 9,
            );
            &&& next == position_at(c0, q, p, d.srl, end)
            &&& after.current.len() == 4096
            &&& after.sign.len() == 4096
            &&& forall|j: int| i <= j < end ==> #[trigger] refined_at(c0, after, q, p, d, j)
            &&& forall|j: int|
                0 <= j < i || end <= j < 4096 ==> after.current[j] == c.current[j] && after.sign[j]
                    == c.sign[j]
        }),
    decreases end - i,
{
    if i < end {
        let u = position_at(c0, q, p, d.srl, i);
        let (next, input, sign) = upgrade::refinement(d, u, c.sign[i], n, b < 9);
        let refined = Coefficients {
            current: c.current.update(i, bits::wrap16(c.current[i] + input * pow2(shift as nat))),
            sign: c.sign.update(i, sign),
        };
        assert(kept_at(c0, c, i));
        assert(gained(c0, q, p, i) == n);
        assert(distance(q, p, i) == shift);
        assert(i < 4015 <==> b < 9) by {
            lemma_band(true, q, b, i);
        }
        lemma_srl_bounds(c0, q, p, d.srl, i);
        laws::law_srl_values_keep_their_bounds(d.srl, srl_before(c0, q, p, d.srl, i), n);
        assert(input == addend(c0, q, p, d.srl, d.raw, i));
        assert(next == position_at(c0, q, p, d.srl, i + 1));
        lemma_wrap(c.current[i] + input * pow2(shift as nat));
        assert forall|j: int| i + 1 <= j < end implies #[trigger] kept_at(c0, refined, j) by {
            assert(kept_at(c0, c, j));
        }
        lemma_refined_range(c0, q, p, d, refined, b, i + 1, end, shift, n);
        let after = upgrade::refine(d, u, c, i, end, shift, n, b < 9).1;
        assert(after.current[i] == refined.current[i] && after.sign[i] == refined.sign[i]);
        assert(refined_at(c0, after, q, p, d, i));
    }
}

proof fn lemma_position_stays(
    c: Component,
    q: ComponentCodecQuant,
    p: ComponentCodecQuant,
    srl: Seq<u8>,
    i: int,
    end: int,
)
    requires
        0 <= i <= end,
        forall|j: int| i <= j < end ==> #[trigger] gained(c, q, p, j) == 0,
    ensures
        position_at(c, q, p, srl, end) == position_at(c, q, p, srl, i),
    decreases end - i,
{
    if i < end {
        lemma_position_stays(c, q, p, srl, i, end - 1);
        assert(gained(c, q, p, end - 1) == 0);
    }
}

proof fn lemma_refined_bands(
    c0: Component,
    q: ComponentCodecQuant,
    p: ComponentCodecQuant,
    d: UpgradeStreams,
    c: Coefficients,
    b: int,
)
    requires
        c0.wf(),
        q.wf(),
        p.wf(),
        c.current.len() == 4096,
        c.sign.len() == 4096,
        0 <= b <= 10,
        forall|j: int|
            0 <= j < layout::band_start(true, b) ==> #[trigger] refined_at(c0, c, q, p, d, j),
        forall|j: int| layout::band_start(true, b) <= j < 4096 ==> #[trigger] kept_at(c0, c, j),
    ensures
        ({
            let after = upgrade::refine_bands(
                d,
                position_at(c0, q, p, d.srl, layout::band_start(true, b)),
                c,
                b,
                component::shifts(q.bands(), p.bands()),
                component::gains(c0.bit_pos, component::positions(q.bands(), p.bands())),
            ).1;
            &&& after.current.len() == 4096
            &&& after.sign.len() == 4096
            &&& forall|j: int| 0 <= j < 4096 ==> #[trigger] refined_at(c0, after, q, p, d, j)
        }),
    decreases 10 - b,
{
    if b < 10 {
        let shift = component::shifts(q.bands(), p.bands());
        let num_bits = component::gains(c0.bit_pos, component::positions(q.bands(), p.bands()));
        let start = layout::band_start(true, b);
        let end = layout::band_start(true, b + 1);
        assert(start <= end <= 4096);
        let u = position_at(c0, q, p, d.srl, start);
        lemma_values(q);
        lemma_values(p);
        assert(q.bands()[b] == band_value(q, b) && p.bands()[b] == band_value(p, b));
        assert(0 <= c0.bit_pos[b] <= 30);
        assert forall|j: int| start <= j < end implies #[trigger] gained(c0, q, p, j)
            == num_bits[b] && distance(q, p, j) == shift[b] by {
            lemma_band(true, q, b, j);
        }
        let (next, after) = if num_bits[b] < 1 {
            (u, c)
        } else {
            upgrade::refine(d, u, c, start, end, shift[b] as int, num_bits[b] as int, b < 9)
        };
        if num_bits[b] < 1 {
            lemma_position_stays(c0, q, p, d.srl, start, end);
            assert forall|j: int| start <= j < end implies #[trigger] refined_at(
                c0,
                after,
                q,
                p,
                d,
                j,
            ) by {
                assert(kept_at(c0, c, j));
                assert(gained(c0, q, p, j) == 0);
                lemma_mul_basics(pow2(distance(q, p, j)) as int);
            }
        } else {
            assert forall|j: int| start <= j < end implies #[trigger] distance(q, p, j)
                == shift[b] by {
                assert(gained(c0, q, p, j) == num_bits[b]);
            }
            lemma_refined_range(
                c0,
                q,
                p,
                d,
                c,
                b,
                start,
                end,
                shift[b] as int,
                num_bits[b] as int,
            );
        }
        assert forall|j: int| 0 <= j < end implies #[trigger] refined_at(c0, after, q, p, d, j) by {
            if j < start {
                assert(refined_at(c0, c, q, p, d, j));
            }
        }
        assert forall|j: int| end <= j < 4096 implies #[trigger] kept_at(c0, after, j) by {
            assert(kept_at(c0, c, j));
        }
        lemma_refined_bands(c0, q, p, d, after, b + 1);
    }
}

/// An upgrade adds its bits directly below those of the passes before: what a coefficient gains,
/// from the stream that its sign decides on, is moved up to one below the new depth.
pub proof fn law_upgrade_adds_bits_below(
    c: Component,
    q: ComponentCodecQuant,
    p: ComponentCodecQuant,
    d: UpgradeStreams,
)
    requires
        c.wf(),
        q.wf(),
        p.wf(),
    ensures
        ({
            let after = component::upgrade_pass(c, q.bands(), p.bands(), d);
            is_upgrade(c, after, after.coefficients.current, q, p, d.srl, d.raw)
        }),
{
    let after = component::upgrade_pass(c, q.bands(), p.bands(), d);
    assert(position_at(c, q, p, d.srl, 0) == UpgradePosition::start());
    assert forall|j: int| 0 <= j < 4096 implies #[trigger] kept_at(c, c.coefficients, j) by {}
    lemma_refined_bands(c, q, p, d, c.coefficients, 0);
    lemma_values(q);
    lemma_values(p);
    assert forall|i: int| 0 <= i < 4096 implies same_word(
        #[trigger] after.coefficients.current[i] as int,
        c.coefficients.current[i] + addend(c, q, p, d.srl, d.raw, i) * pow2(distance(q, p, i)),
    ) by {
        assert(refined_at(c, after.coefficients, q, p, d, i));
    }
    assert forall|i: int| 0 <= i < 4096 implies #[trigger] after.coefficients.sign[i] == if gained(
        c,
        q,
        p,
        i,
    ) >= 1 && !is_raw(c, i) {
        addend(c, q, p, d.srl, d.raw, i)
    } else {
        c.coefficients.sign[i] as int
    } by {
        assert(refined_at(c, after.coefficients, q, p, d, i));
    }
    assert forall|b: int| 0 <= b < 10 implies #[trigger] after.bit_pos[b] == band_value(q, b)
        + band_value(p, b) by {
        assert(q.bands()[b] == band_value(q, b) && p.bands()[b] == band_value(p, b));
    }
}

proof fn lemma_words_agree(a: i16, b: i16, n: int)
    requires
        same_word(a as int, n),
        same_word(b as int, n),
    ensures
        a == b,
{
}

/// A first pass down to one depth and an upgrade down to a lower one give what a single first pass
/// down to the lower depth gives of the coefficient with the bits of the upgrade behind its own.
pub proof fn law_upgrade_continues_a_first_pass(
    c: Component,
    q1: ComponentCodecQuant,
    p1: ComponentCodecQuant,
    data: FirstPassData,
    q2: ComponentCodecQuant,
    p2: ComponentCodecQuant,
    d: UpgradeStreams,
    joined: FirstPassData,
    i: int,
)
    requires
        c.wf(),
        q1.wf() && p1.wf() && q2.wf() && p2.wf(),
        data.wf(true) && joined.wf(true),
        0 <= i < 4015,
        data.coefficients@[i] != 0,
        1 <= depth(q2, p2, true, i) < depth(q1, p1, true, i) <= 16,
        ({
            let first = component::first_pass(
                c,
                q1.bands(),
                p1.bands(),
                Ok(data),
                false,
                true,
            ).0;
            let n = (depth(q1, p1, true, i) - depth(q2, p2, true, i)) as nat;
            let v = bits::bits(d.raw, raw_before(first, q2, p2, i), n);
            joined.coefficients@[i] == data.coefficients@[i] * pow2(n) + if data.coefficients@[i]
                < 0 {
                -v
            } else {
                v
            }
        }),
    ensures
        ({
            let first = component::first_pass(
                c,
                q1.bands(),
                p1.bands(),
                Ok(data),
                false,
                true,
            ).0;
            let upgraded = component::upgrade_pass(first, q2.bands(), p2.bands(), d);
            let at_once = component::first_pass(
                c,
                q2.bands(),
                p2.bands(),
                Ok(joined),
                false,
                true,
            ).0;
            upgraded.coefficients.current[i] == at_once.coefficients.current[i]
        }),
{
    let first = component::first_pass(c, q1.bands(), p1.bands(), Ok(data), false, true).0;
    let at_once = component::first_pass(c, q2.bands(), p2.bands(), Ok(joined), false, true).0;
    lemma_first_word(c, q1, p1, data, i);
    lemma_first_word(c, q2, p2, joined, i);
    let a = depth(q1, p1, true, i);
    lemma_upgrade_word(first, at_once, q2, p2, d, data.coefficients@[i] as int, i, a);
}

#[verifier::rlimit(30)]
proof fn lemma_first_word(
    c: Component,
    q: ComponentCodecQuant,
    p: ComponentCodecQuant,
    data: FirstPassData,
    i: int,
)
    requires
        c.wf(),
        q.wf() && p.wf(),
        data.wf(true),
        0 <= i < 4015,
        1 <= depth(q, p, true, i) <= 16,
    ensures
        ({
            let first = component::first_pass(c, q.bands(), p.bands(), Ok(data), false, true).0;
            &&& first.wf()
            &&& first.coefficients.sign[i] == data.coefficients@[i]
            &&& first.bit_pos[band_number(true, i)] == depth(q, p, true, i)
            &&& same_word(
                first.coefficients.current[i] as int,
                data.coefficients@[i] * pow2((depth(q, p, true, i) - 1) as nat),
            )
        }),
{
    law_first_pass_moves_coefficients_up(c, q, p, data, false, true);
    let first = component::first_pass(c, q.bands(), p.bands(), Ok(data), false, true).0;
    lemma_values(q);
    lemma_values(p);
    assert forall|b: int| 0 <= b < 10 implies 0 <= #[trigger] first.bit_pos[b] <= 30 by {
        assert(first.bit_pos[b] == band_value(q, b) + band_value(p, b));
        assert(0 <= band_value(q, b) <= 15 && 0 <= band_value(p, b) <= 15);
    }
    assert(first.bit_pos[band_number(true, i)] == depth(q, p, true, i));
    assert(same_word(
        first.coefficients.current[i] as int,
        data.coefficients@[i] * pow2((depth(q, p, true, i) - 1) as nat),
    ));
}

proof fn lemma_upgrade_word(
    first: Component,
    at_once: Component,
    q: ComponentCodecQuant,
    p: ComponentCodecQuant,
    d: UpgradeStreams,
    x: int,
    i: int,
    a: int,
)
    requires
        first.wf(),
        q.wf() && p.wf(),
        0 <= i < 4015,
        x != 0,
        1 <= depth(q, p, true, i) < a <= 16,
        first.coefficients.sign[i] == x,
        first.bit_pos[band_number(true, i)] == a,
        same_word(first.coefficients.current[i] as int, x * pow2((a - 1) as nat)),
        ({
            let n = (a - depth(q, p, true, i)) as nat;
            let v = bits::bits(d.raw, raw_before(first, q, p, i), n);
            let w = if x < 0 {
                -v
            } else {
                v
            };
            same_word(
                at_once.coefficients.current[i] as int,
                (x * pow2(n) + w) * pow2((depth(q, p, true, i) - 1) as nat),
            )
        }),
    ensures
        component::upgrade_pass(first, q.bands(), p.bands(), d).coefficients.current[i]
            == at_once.coefficients.current[i],
{
    law_upgrade_adds_bits_below(first, q, p, d);
    let upgraded = component::upgrade_pass(first, q.bands(), p.bands(), d);
    let b = depth(q, p, true, i);
    let n = (a - b) as nat;
    let k = (b - 1) as nat;
    let w = addend(first, q, p, d.srl, d.raw, i);
    assert(same_word(
        upgraded.coefficients.current[i] as int,
        first.coefficients.current[i] + w * pow2(k),
    ));
    lemma_pow2_adds(n, k);
    assert((x * pow2(n) + w) * pow2(k) == x * pow2((a - 1) as nat) + w * pow2(k))
        by (nonlinear_arith)
        requires
            pow2(n) * pow2(k) == pow2((a - 1) as nat),
    ;
    lemma_words_agree(
        upgraded.coefficients.current[i],
        at_once.coefficients.current[i],
        (x * pow2(n) + w) * pow2(k),
    );
}

/// A tile lies on a surface: its first pixel does.
pub open spec fn on_surface(s: Surface, x: u16, y: u16) -> bool {
    64 * x < s.width && 64 * y < s.height
}

/// Where a tile is remembered: row by row, with as many to a row as it takes to cover the width.
pub open spec fn place(s: Surface, x: u16, y: u16) -> int {
    y * ((s.width + 63) / 64) + x
}

/// Quantization values of zero.
pub open spec fn no_quant() -> ComponentCodecQuant {
    ComponentCodecQuant {
        ll3: 0,
        hl3: 0,
        lh3: 0,
        hh3: 0,
        hl2: 0,
        lh2: 0,
        hh2: 0,
        hl1: 0,
        lh1: 0,
        hh1: 0,
    }
}

/// What a quality stands for: nothing is held back for 0xFF, else an entry of the region's table.
pub open spec fn held_back(region: ProgressiveRegion, quality: u8) -> Option<
    ProgressiveCodecQuant,
> {
    if quality == 0xFF {
        Some(
            ProgressiveCodecQuant {
                y_quant: no_quant(),
                cb_quant: no_quant(),
                cr_quant: no_quant(),
            },
        )
    } else if quality < region.quant_prog_vals@.len() {
        Some(region.quant_prog_vals@[quality as int])
    } else {
        None
    }
}

/// What a first pass of a tile goes by.
pub struct FirstTile {
    pub x: u16,
    pub y: u16,
    pub quant_y: int,
    pub quant_cb: int,
    pub quant_cr: int,
    pub quality: u8,
    pub difference: bool,
    pub y_data: Result<FirstPassData, String>,
    pub cb_data: Result<FirstPassData, String>,
    pub cr_data: Result<FirstPassData, String>,
}

/// The first pass that a tile comes in, if it is no upgrade. One that comes in a single pass is of
/// full quality. The lowest of the flags tells a difference.
pub open spec fn as_first(t: ProgressiveTile) -> Option<FirstTile> {
    match t {
        ProgressiveTile::Simple(t) => Some(
            FirstTile {
                x: t.x_idx,
                y: t.y_idx,
                quant_y: t.quant_idx_y as int,
                quant_cb: t.quant_idx_cb as int,
                quant_cr: t.quant_idx_cr as int,
                quality: 0xFF,
                difference: t.flags % 2 == 1,
                y_data: t.y_data,
                cb_data: t.cb_data,
                cr_data: t.cr_data,
            },
        ),
        ProgressiveTile::First(t) => Some(
            FirstTile {
                x: t.x_idx,
                y: t.y_idx,
                quant_y: t.quant_idx_y as int,
                quant_cb: t.quant_idx_cb as int,
                quant_cr: t.quant_idx_cr as int,
                quality: t.quality,
                difference: t.flags % 2 == 1,
                y_data: t.y_data,
                cb_data: t.cb_data,
                cr_data: t.cr_data,
            },
        ),
        ProgressiveTile::Upgrade(_) => None,
    }
}

/// What was shown of a tile before: nothing but zeros where nothing has been decoded of it.
pub open spec fn earlier(t: Option<Tile>) -> Planes {
    match t {
        Some(t) => Planes {
            y: t.y.coefficients.current,
            cb: t.cb.coefficients.current,
            cr: t.cr.coefficients.current,
        },
        None => Planes {
            y: Seq::new(4096, |i: int| 0i16),
            cb: Seq::new(4096, |i: int| 0i16),
            cr: Seq::new(4096, |i: int| 0i16),
        },
    }
}

/// A tile is accepted where it lies on the surface.
pub proof fn law_tiles_on_the_surface_are_held(s: Surface, t: ProgressiveTile)
    ensures
        s.holds(t) <==> on_surface(s, column_of(t), row_of(t)),
        s.slot(t) == place(s, column_of(t), row_of(t)),
{
}

/// The column of a tile in the grid.
pub open spec fn column_of(t: ProgressiveTile) -> u16 {
    match t {
        ProgressiveTile::Simple(d) => d.x_idx,
        ProgressiveTile::First(d) => d.x_idx,
        ProgressiveTile::Upgrade(d) => d.x_idx,
    }
}

/// The row of a tile in the grid.
pub open spec fn row_of(t: ProgressiveTile) -> u16 {
    match t {
        ProgressiveTile::Simple(d) => d.y_idx,
        ProgressiveTile::First(d) => d.y_idx,
        ProgressiveTile::Upgrade(d) => d.y_idx,
    }
}

proof fn lemma_places(s: Surface, t: ProgressiveTile, x: u16, y: u16)
    requires
        s.wf(),
        x == t.column(),
        y == t.row(),
    ensures
        s.holds(t) <==> on_surface(s, x, y),
        s.slot(t) == place(s, x, y),
        on_surface(s, x, y) ==> 0 <= place(s, x, y) < s.tiles.len(),
{
    if s.holds(t) {
        laws::law_tiles_have_their_own_places(s, t, t);
    }
}

/// The lowest bit of a byte.
pub proof fn lemma_flag(flags: u8)
    ensures
        flags & 1 != 0 <==> flags % 2 == 1,
{
    assert(flags & 1 != 0 <==> flags % 2 == 1) by (bit_vector);
}

proof fn lemma_tables(region: ProgressiveRegion, quality: u8)
    requires
        region.wf(),
    ensures
        tile::prog_quants(region, quality) is Ok <==> held_back(region, quality) is Some,
        held_back(region, quality) matches Some(p) ==> {
            let q = tile::prog_quants(region, quality)->Ok_0;
            &&& p.wf()
            &&& q.y == p.y_quant.bands()
            &&& q.cb == p.cb_quant.bands()
            &&& q.cr == p.cr_quant.bands()
        },
        tile::prog_quant_full() == no_quant().bands(),
{
    assert(tile::prog_quant_full() =~= no_quant().bands());
    if quality != 0xFF && quality < region.quant_prog_vals@.len() {
        assert(region.quant_prog_vals@[quality as int].wf());
    }
}

/// What decoding a first pass of a tile leads to, where everything that it refers to is there: what
/// is remembered of the tile is `after`. Each component is a function of its own data, its own
/// quantization and its own earlier coefficients. Where the data of one is bad, those behind it are
/// as they were, and of itself only the depth has changed.
pub open spec fn is_first_tile(
    before: Option<Tile>,
    after: Tile,
    end: Result<Planes, Seq<char>>,
    region: ProgressiveRegion,
    f: FirstTile,
) -> bool {
    let p = held_back(region, f.quality)->0;
    let q_y = region.quant_vals@[f.quant_y];
    let q_cb = region.quant_vals@[f.quant_cb];
    let q_cr = region.quant_vals@[f.quant_cr];
    let e = region.reduce_extrapolate;
    let was = earlier(before);
    let y = after.y.coefficients;
    let cb = after.cb.coefficients;
    let cr = after.cr.coefficients;
    &&& after.pass == 1
    &&& reaches(after.y.bit_pos, q_y, p.y_quant)
    &&& match f.y_data {
        Err(_) => y.current == was.y && cb.current == was.cb && cr.current == was.cr,
        Ok(y_data) => {
            &&& is_first_pass(
                was.y,
                after.y,
                y.current,
                q_y,
                p.y_quant,
                y_data,
                f.difference,
                e,
            )
            &&& reaches(after.cb.bit_pos, q_cb, p.cb_quant)
            &&& match f.cb_data {
                Err(_) => cb.current == was.cb && cr.current == was.cr,
                Ok(cb_data) => {
                    &&& is_first_pass(
                        was.cb,
                        after.cb,
                        cb.current,
                        q_cb,
                        p.cb_quant,
                        cb_data,
                        f.difference,
                        e,
                    )
                    &&& reaches(after.cr.bit_pos, q_cr, p.cr_quant)
                    &&& match f.cr_data {
                        Err(_) => cr.current == was.cr,
                        Ok(cr_data) => is_first_pass(
                            was.cr,
                            after.cr,
                            cr.current,
                            q_cr,
                            p.cr_quant,
                            cr_data,
                            f.difference,
                            e,
                        ),
                    }
                },
            }
        },
    }
    &&& end is Ok <==> f.y_data is Ok && f.cb_data is Ok && f.cr_data is Ok
    &&& end matches Ok(planes) ==> planes.y == y.current && planes.cb == cb.current && planes.cr
        == cr.current
}

/// A first pass of a tile is decoded if the tile lies on the surface and what it refers to is
/// there, and else changes nothing. What is shown of each component is what is then remembered of
/// it.
pub proof fn law_first_pass_shows_each_component(
    s: Surface,
    region: ProgressiveRegion,
    t: ProgressiveTile,
    u: Summary,
)
    requires
        s.wf(),
        region.wf(),
        t.wf(region.reduce_extrapolate),
        t !is Upgrade,
    ensures
        ({
            let f = as_first(t)->0;
            let n = region.quant_vals@.len();
            let at = place(s, f.x, f.y);
            let (after, _, end) = decoder::decode_tile(s, region, t, u);
            if on_surface(s, f.x, f.y) && f.quant_y < n && f.quant_cb < n && f.quant_cr < n
                && held_back(region, f.quality) is Some {
                &&& after.width == s.width && after.height == s.height
                &&& after.tiles.len() == s.tiles.len()
                &&& forall|i: int|
                    0 <= i < s.tiles.len() && i != at ==> #[trigger] after.tiles[i] == s.tiles[i]
                &&& after.tiles[at] matches Some(now) && is_first_tile(
                    s.tiles[at],
                    now,
                    end,
                    region,
                    f,
                )
            } else {
                after == s && end is Err
            }
        }),
{
    let f = as_first(t)->0;
    let n = region.quant_vals@.len();
    lemma_places(s, t, f.x, f.y);
    lemma_tables(region, f.quality);
    match t {
        ProgressiveTile::Simple(d) => {
            lemma_flag(d.flags);
        },
        ProgressiveTile::First(d) => {
            lemma_flag(d.flags);
        },
        _ => {},
    }
    if on_surface(s, f.x, f.y) && f.quant_y < n && f.quant_cb < n && f.quant_cr < n && held_back(
        region,
        f.quality,
    ) is Some {
        let at = place(s, f.x, f.y);
        let p = held_back(region, f.quality)->0;
        let q_y = region.quant_vals@[f.quant_y];
        let q_cb = region.quant_vals@[f.quant_cb];
        let q_cr = region.quant_vals@[f.quant_cr];
        assert(q_y.wf() && q_cb.wf() && q_cr.wf());
        let was = match s.tiles[at] {
            Some(t) => t,
            None => Tile::blank(),
        };
        assert(was.wf()) by {
            assert(s.tiles[at] matches Some(t) ==> t.wf());
        }
        let e = region.reduce_extrapolate;
        lemma_component(was.y, q_y, p.y_quant, f.y_data, f.difference, e);
        lemma_component(was.cb, q_cb, p.cb_quant, f.cb_data, f.difference, e);
        lemma_component(was.cr, q_cr, p.cr_quant, f.cr_data, f.difference, e);
        assert(earlier(s.tiles[at]).y =~= was.y.coefficients.current);
        assert(earlier(s.tiles[at]).cb =~= was.cb.coefficients.current);
        assert(earlier(s.tiles[at]).cr =~= was.cr.coefficients.current);
    }
}

/// A first pass of a component, with good data or bad.
proof fn lemma_component(
    c: Component,
    q: ComponentCodecQuant,
    p: ComponentCodecQuant,
    data: Result<FirstPassData, String>,
    difference: bool,
    extrapolate: bool,
)
    requires
        c.wf(),
        q.wf(),
        p.wf(),
        data matches Ok(d) ==> d.wf(extrapolate),
    ensures
        ({
            let (after, end) = component::first_pass(
                c,
                q.bands(),
                p.bands(),
                data,
                difference,
                extrapolate,
            );
            &&& reaches(after.bit_pos, q, p)
            &&& end is Ok <==> data is Ok
            &&& match data {
                Err(_) => after.coefficients == c.coefficients,
                Ok(d) => end->Ok_0 == after.coefficients.current && is_first_pass(
                    c.coefficients.current,
                    after,
                    after.coefficients.current,
                    q,
                    p,
                    d,
                    difference,
                    extrapolate,
                ),
            }
        }),
{
    lemma_values(q);
    lemma_values(p);
    let after = component::first_pass(
        c,
        q.bands(),
        p.bands(),
        data,
        difference,
        extrapolate,
    ).0;
    assert forall|b: int| 0 <= b < 10 implies #[trigger] after.bit_pos[b] == band_value(q, b)
        + band_value(p, b) by {
        assert(q.bands()[b] == band_value(q, b) && p.bands()[b] == band_value(p, b));
    }
    if let Ok(d) = data {
        law_first_pass_moves_coefficients_up(c, q, p, d, difference, extrapolate);
    }
}

/// An upgrade of a tile is decoded if the tile lies on the surface, has had a first pass, and what
/// it refers to is there, and else changes nothing. Each component is upgraded from its own
/// streams, and what is shown of it is what is then remembered.
pub proof fn law_upgrade_shows_each_component(
    s: Surface,
    region: ProgressiveRegion,
    t: TileUpgrade,
    u: Summary,
)
    requires
        s.wf(),
        region.wf(),
    ensures
        ({
            let n = region.quant_vals@.len();
            let at = place(s, t.x_idx, t.y_idx);
            let (after, _, end) = decoder::decode_tile(s, region, ProgressiveTile::Upgrade(t), u);
            if on_surface(s, t.x_idx, t.y_idx) && s.tiles[at] is Some && t.quant_idx_y < n
                && t.quant_idx_cb < n && t.quant_idx_cr < n && held_back(region, t.quality)
                is Some {
                let p = held_back(region, t.quality)->0;
                let before = s.tiles[at]->0;
                &&& after.width == s.width && after.height == s.height
                &&& after.tiles.len() == s.tiles.len()
                &&& forall|i: int|
                    0 <= i < s.tiles.len() && i != at ==> #[trigger] after.tiles[i] == s.tiles[i]
                &&& end is Ok
                &&& after.tiles[at] matches Some(now) && {
                    &&& is_upgrade(
                        before.y,
                        now.y,
                        end->Ok_0.y,
                        region.quant_vals@[t.quant_idx_y as int],
                        p.y_quant,
                        t.y_srl_data@,
                        t.y_raw_data@,
                    )
                    &&& is_upgrade(
                        before.cb,
                        now.cb,
                        end->Ok_0.cb,
                        region.quant_vals@[t.quant_idx_cb as int],
                        p.cb_quant,
                        t.cb_srl_data@,
                        t.cb_raw_data@,
                    )
                    &&& is_upgrade(
                        before.cr,
                        now.cr,
                        end->Ok_0.cr,
                        region.quant_vals@[t.quant_idx_cr as int],
                        p.cr_quant,
                        t.cr_srl_data@,
                        t.cr_raw_data@,
                    )
                    &&& now.pass == if before.pass == 0xFFFF {
                        0xFFFF
                    } else {
                        before.pass + 1
                    }
                }
            } else {
                after == s && end is Err
            }
        }),
{
    let n = region.quant_vals@.len();
    let at = place(s, t.x_idx, t.y_idx);
    lemma_places(s, ProgressiveTile::Upgrade(t), t.x_idx, t.y_idx);
    lemma_tables(region, t.quality);
    if on_surface(s, t.x_idx, t.y_idx) && s.tiles[at] is Some && t.quant_idx_y < n && t.quant_idx_cb
        < n && t.quant_idx_cr < n && held_back(region, t.quality) is Some {
        let p = held_back(region, t.quality)->0;
        let before = s.tiles[at]->0;
        assert(s.tiles[at] matches Some(t) ==> t.wf());
        let q_y = region.quant_vals@[t.quant_idx_y as int];
        let q_cb = region.quant_vals@[t.quant_idx_cb as int];
        let q_cr = region.quant_vals@[t.quant_idx_cr as int];
        assert(q_y.wf() && q_cb.wf() && q_cr.wf());
        law_upgrade_adds_bits_below(
            before.y,
            q_y,
            p.y_quant,
            UpgradeStreams { srl: t.y_srl_data@, raw: t.y_raw_data@ },
        );
        law_upgrade_adds_bits_below(
            before.cb,
            q_cb,
            p.cb_quant,
            UpgradeStreams { srl: t.cb_srl_data@, raw: t.cb_raw_data@ },
        );
        law_upgrade_adds_bits_below(
            before.cr,
            q_cr,
            p.cr_quant,
            UpgradeStreams { srl: t.cr_srl_data@, raw: t.cr_raw_data@ },
        );
    }
}

} // verus!
