//! One color component of a tile.

use crate::rfx_progressive::bits;
use crate::rfx_progressive::bits::{power_of_two, wrap};
use crate::rfx_progressive::layout;
use crate::rfx_progressive::layout::{band_offset, TILE_PIXELS};
use crate::rfx_progressive::stream;
use crate::rfx_progressive::stream::FirstPassData;
use crate::rfx_progressive::upgrade;
use crate::rfx_progressive::upgrade::{upgrade_component, Coefficients, UpgradeStreams};
use vstd::arithmetic::power2::*;
use vstd::prelude::*;
use vstd::string::*;

verus! {

/// What is remembered of a component from one pass to the next.
#[verifier::ext_equal]
pub struct Component {
    pub coefficients: Coefficients,
    /// The bit position that each band has been decoded down to.
    pub bit_pos: Seq<i32>,
}

impl Component {
    /// The component of a tile that nothing has been decoded of.
    pub open spec fn blank() -> Component {
        Component {
            coefficients: Coefficients {
                current: Seq::new(TILE_PIXELS as nat, |i: int| 0i16),
                sign: Seq::new(TILE_PIXELS as nat, |i: int| 0i16),
            },
            bit_pos: Seq::new(10, |b: int| 0i32),
        }
    }

    /// The sizes are those of a tile, and the bit positions are sums of two quantization values.
    pub open spec fn wf(self) -> bool {
        &&& self.coefficients.current.len() == TILE_PIXELS
        &&& self.coefficients.sign.len() == TILE_PIXELS
        &&& self.bit_pos.len() == 10
        &&& forall|b: int| 0 <= b < 10 ==> 0 <= #[trigger] self.bit_pos[b] <= 30
    }
}

/// Quantization values of ten bands, four bits each.
pub open spec fn quant_wf(quant: Seq<i32>) -> bool {
    quant.len() == 10 && forall|b: int| 0 <= b < 10 ==> 0 <= #[trigger] quant[b] <= 15
}

/// The bit positions that a pass decodes down to.
pub open spec fn positions(quant: Seq<i32>, prog: Seq<i32>) -> Seq<i32> {
    Seq::new(10, |b: int| (quant[b] + prog[b]) as i32)
}

/// How far the coefficients of each band are shifted.
pub open spec fn shifts(quant: Seq<i32>, prog: Seq<i32>) -> Seq<i32> {
    Seq::new(
        10,
        |b: int|
            if quant[b] + prog[b] > 1 {
                (quant[b] + prog[b] - 1) as i32
            } else {
                0i32
            },
    )
}

/// How many bits each band gains when its bit position goes down.
pub open spec fn gains(before: Seq<i32>, after: Seq<i32>) -> Seq<i32> {
    Seq::new(
        10,
        |b: int|
            if before[b] > after[b] {
                (before[b] - after[b]) as i32
            } else {
                0i32
            },
    )
}

/// A coefficient shifted left in 16 bits. The distance counts modulo the width of the word.
pub open spec fn shifted(v: i16, shift: int) -> i16 {
    if shift <= 0 {
        v
    } else {
        bits::wrap16(v * pow2((shift % 16) as nat))
    }
}

/// The coefficients of a first pass: the last band with its differences added up, and each band
/// shifted.
pub open spec fn dequantized(
    coefficients: Seq<i16>,
    ll3: Seq<i16>,
    shift: Seq<i32>,
    extrapolate: bool,
) -> Seq<i16> {
    Seq::new(
        TILE_PIXELS as nat,
        |i: int|
            {
                let b = layout::band_of(extrapolate, i);
                let v = if b == 9 {
                    ll3[i - layout::band_start(extrapolate, 9)]
                } else {
                    coefficients[i]
                };
                shifted(v, shift[b] as int)
            },
    )
}

/// Coefficients that are a difference from the ones before.
pub open spec fn summed(current: Seq<i16>, difference: Seq<i16>) -> Seq<i16> {
    Seq::new(TILE_PIXELS as nat, |i: int| bits::wrap16(difference[i] + current[i]))
}

/// The first pass of a component: the component after it, and the coefficients to transform. Where
/// entropy decoding failed, only the bit positions have changed.
pub open spec fn first_pass(
    c: Component,
    quant: Seq<i32>,
    prog: Seq<i32>,
    data: Result<FirstPassData, String>,
    coeff_diff: bool,
    extrapolate: bool,
) -> (Component, Result<Seq<i16>, Seq<char>>) {
    let bit_pos = positions(quant, prog);
    match data {
        Err(e) => (Component { bit_pos, ..c }, Err("rlgr decode: "@ + e@)),
        Ok(d) => {
            let fresh = dequantized(d.coefficients@, d.ll3@, shifts(quant, prog), extrapolate);
            let current = if coeff_diff {
                summed(c.coefficients.current, fresh)
            } else {
                fresh
            };
            let coefficients = Coefficients { current, sign: d.coefficients@ };
            (Component { coefficients, bit_pos }, Ok(current))
        },
    }
}

/// The upgrade of a component.
pub open spec fn upgrade_pass(
    c: Component,
    quant: Seq<i32>,
    prog: Seq<i32>,
    d: UpgradeStreams,
) -> Component {
    let bit_pos = positions(quant, prog);
    Component {
        coefficients: upgrade::upgraded(
            d,
            c.coefficients,
            shifts(quant, prog),
            gains(c.bit_pos, bit_pos),
        ),
        bit_pos,
    }
}

/// Shifts the coefficients from `off` to `end`.
pub fn lshift_band(buffer: &mut Vec<i16>, off: usize, end: usize, shift: i32)
    requires
        off <= end <= old(buffer)@.len(),
    ensures
        final(buffer)@ == Seq::new(
            old(buffer)@.len(),
            |i: int|
                if off <= i < end {
                    shifted(old(buffer)@[i], shift as int)
                } else {
                    old(buffer)@[i]
                },
        ),
{
    if shift <= 0 {
        assert(buffer@ =~= Seq::new(
            buffer@.len(),
            |i: int|
                if off <= i < end {
                    shifted(buffer@[i], shift as int)
                } else {
                    buffer@[i]
                },
        ));
        return;
    }
    let factor: i64 = power_of_two((shift % 16) as u32);
    let mut i: usize = off;
    while i < end
        invariant
            0 < shift,
            factor == pow2((shift as int % 16) as nat),
            1 <= factor <= 0x100_0000_0000,
            off <= i <= end <= buffer@.len() == old(buffer)@.len(),
            forall|j: int|
                0 <= j < buffer@.len() ==> #[trigger] buffer@[j] == if off <= j < i {
                    shifted(old(buffer)@[j], shift as int)
                } else {
                    old(buffer)@[j]
                },
        decreases end - i,
    {
        let v: i16 = buffer[i];
        assert(-0x80_0000_0000_0000 <= v * factor <= 0x80_0000_0000_0000) by (nonlinear_arith)
            requires
                -0x8000 <= v <= 0x7FFF,
                1 <= factor <= 0x100_0000_0000,
        ;
        buffer[i] = wrap(v as i64 * factor);
        i = i + 1;
    }
    assert(buffer@ =~= Seq::new(
        old(buffer)@.len(),
        |i: int|
            if off <= i < end {
                shifted(old(buffer)@[i], shift as int)
            } else {
                old(buffer)@[i]
            },
    ));
}

/// The state of a component.
pub struct ComponentState {
    pub current: Vec<i16>,
    pub sign: Vec<i16>,
    pub bit_pos: [i32; 10],
}

impl View for ComponentState {
    type V = Component;

    open spec fn view(&self) -> Component {
        Component {
            coefficients: Coefficients { current: self.current@, sign: self.sign@ },
            bit_pos: self.bit_pos@,
        }
    }
}

fn zero_coefficients() -> (r: Vec<i16>)
    ensures
        r@ == Seq::new(TILE_PIXELS as nat, |i: int| 0i16),
{
    let mut r: Vec<i16> = Vec::with_capacity(TILE_PIXELS);
    while r.len() < TILE_PIXELS
        invariant
            r@.len() <= TILE_PIXELS,
            forall|i: int| 0 <= i < r@.len() ==> r@[i] == 0i16,
        decreases TILE_PIXELS - r@.len(),
    {
        r.push(0);
    }
    assert(r@ =~= Seq::new(TILE_PIXELS as nat, |i: int| 0i16));
    r
}

/// Copies coefficients.
pub fn copy_coefficients(from: &Vec<i16>) -> (r: Vec<i16>)
    ensures
        r@ == from@,
{
    let mut r: Vec<i16> = Vec::with_capacity(from.len());
    while r.len() < from.len()
        invariant
            r@.len() <= from@.len(),
            r@ == from@.take(r@.len() as int),
        decreases from@.len() - r@.len(),
    {
        r.push(from[r.len()]);
    }
    assert(r@ =~= from@);
    r
}

impl ComponentState {
    /// A component that nothing has been decoded of.
    pub fn new() -> (r: Self)
        ensures
            r@ == Component::blank(),
            r@.wf(),
    {
        let r = ComponentState {
            current: zero_coefficients(),
            sign: zero_coefficients(),
            bit_pos: [0; 10],
        };
        assert(r@ =~= Component::blank());
        r
    }

    /// Decodes a first pass. Returns the coefficients to transform.
    pub fn decode_first(
        &mut self,
        quant: &[i32; 10],
        prog: &[i32; 10],
        data: &Result<FirstPassData, String>,
        coeff_diff: bool,
        extrapolate: bool,
    ) -> (res: Result<Vec<i16>, String>)
        requires
            old(self)@.wf(),
            quant_wf(quant@),
            quant_wf(prog@),
            stream::data_wf(*data, extrapolate),
        ensures
            final(self)@.wf(),
            ({
                let (c, end) = first_pass(
                    old(self)@,
                    quant@,
                    prog@,
                    *data,
                    coeff_diff,
                    extrapolate,
                );
                &&& final(self)@ == c
                &&& match end {
                    Ok(plane) => res matches Ok(v) && v@ == plane,
                    Err(message) => res matches Err(e) && e@ == message,
                }
            }),
    {
        let mut bit_pos: [i32; 10] = [0; 10];
        let mut shift: [i32; 10] = [0; 10];
        let mut b: usize = 0;
        while b < 10
            invariant
                b <= 10,
                quant_wf(quant@),
                quant_wf(prog@),
                bit_pos@.len() == 10,
                shift@.len() == 10,
                forall|k: int| 0 <= k < b ==> #[trigger] bit_pos@[k] == positions(quant@, prog@)[k],
                forall|k: int| 0 <= k < b ==> #[trigger] shift@[k] == shifts(quant@, prog@)[k],
            decreases 10 - b,
        {
            let q: i32 = quant[b];
            let p: i32 = prog[b];
            assert(0 <= quant@[b as int] <= 15 && 0 <= prog@[b as int] <= 15);
            bit_pos[b] = q + p;
            shift[b] = if q + p > 1 {
                q + p - 1
            } else {
                0
            };
            b = b + 1;
        }
        assert(bit_pos@ =~= positions(quant@, prog@));
        assert(shift@ =~= shifts(quant@, prog@));
        self.bit_pos = bit_pos;
        assert(self@.wf()) by {
            assert forall|b: int| 0 <= b < 10 implies 0 <= #[trigger] self@.bit_pos[b] <= 30 by {
                assert(0 <= quant@[b] <= 15 && 0 <= prog@[b] <= 15);
            }
        }
        match data {
            Err(e) => {
                let mut message = String::from_str("rlgr decode: ");
                message.append(e.as_str());
                Err(message)
            },
            Ok(d) => {
                let plane = decode_component_first(
                    d,
                    &shift,
                    &mut self.current,
                    &mut self.sign,
                    coeff_diff,
                    extrapolate,
                );
                Ok(plane)
            },
        }
    }

    /// Decodes an upgrade. Returns the coefficients to transform.
    pub fn decode_upgrade(
        &mut self,
        quant: &[i32; 10],
        prog: &[i32; 10],
        srl: &[u8],
        raw: &[u8],
    ) -> (plane: Vec<i16>)
        requires
            old(self)@.wf(),
            quant_wf(quant@),
            quant_wf(prog@),
        ensures
            final(self)@.wf(),
            final(self)@ == upgrade_pass(
                old(self)@,
                quant@,
                prog@,
                UpgradeStreams { srl: srl@, raw: raw@ },
            ),
            plane@ == final(self)@.coefficients.current,
    {
        let mut bit_pos: [i32; 10] = [0; 10];
        let mut num_bits: [i32; 10] = [0; 10];
        let mut shift: [i32; 10] = [0; 10];
        let mut b: usize = 0;
        while b < 10
            invariant
                b <= 10,
                self@.wf(),
                quant_wf(quant@),
                quant_wf(prog@),
                bit_pos@.len() == 10,
                num_bits@.len() == 10,
                shift@.len() == 10,
                forall|k: int|
                    0 <= k < b ==> #[trigger] bit_pos@[k] == positions(quant@, prog@)[k] && 0
                        <= bit_pos@[k] <= 30,
                forall|k: int|
                    0 <= k < b ==> #[trigger] num_bits@[k] == gains(
                        self@.bit_pos,
                        positions(quant@, prog@),
                    )[k] && 0 <= num_bits@[k] <= 30,
                forall|k: int|
                    0 <= k < b ==> #[trigger] shift@[k] == shifts(quant@, prog@)[k] && 0
                        <= shift@[k] <= 29,
            decreases 10 - b,
        {
            let q: i32 = quant[b];
            let p: i32 = prog[b];
            assert(0 <= quant@[b as int] <= 15 && 0 <= prog@[b as int] <= 15);
            assert(0 <= self@.bit_pos[b as int] <= 30);
            bit_pos[b] = q + p;
            num_bits[b] = if self.bit_pos[b] > q + p {
                self.bit_pos[b] - (q + p)
            } else {
                0
            };
            shift[b] = if q + p > 1 {
                q + p - 1
            } else {
                0
            };
            b = b + 1;
        }
        assert(bit_pos@ =~= positions(quant@, prog@));
        assert(num_bits@ =~= gains(self@.bit_pos, positions(quant@, prog@)));
        assert(shift@ =~= shifts(quant@, prog@));
        self.bit_pos = bit_pos;
        upgrade_component(&shift, &num_bits, &mut self.current, &mut self.sign, srl, raw);
        copy_coefficients(&self.current)
    }
}

/// Decodes the coefficients of a first pass. Returns those to transform, which are the current
/// ones afterwards.
pub fn decode_component_first(
    data: &FirstPassData,
    shift: &[i32; 10],
    current: &mut Vec<i16>,
    sign: &mut Vec<i16>,
    coeff_diff: bool,
    extrapolate: bool,
) -> (plane: Vec<i16>)
    requires
        data.wf(extrapolate),
        old(current)@.len() == TILE_PIXELS,
    ensures
        final(sign)@ == data.coefficients@,
        final(current)@ == plane@,
        plane@ == ({
            let fresh = dequantized(data.coefficients@, data.ll3@, shift@, extrapolate);
            if coeff_diff {
                summed(old(current)@, fresh)
            } else {
                fresh
            }
        }),
        plane@.len() == TILE_PIXELS,
{
    *sign = copy_coefficients(&data.coefficients);
    let mut buffer = copy_coefficients(&data.coefficients);
    let ll3_start: usize = band_offset(extrapolate, 9);
    let mut i: usize = ll3_start;
    while i < TILE_PIXELS
        invariant
            data.wf(extrapolate),
            ll3_start == layout::band_start(extrapolate, 9),
            ll3_start <= i <= TILE_PIXELS,
            buffer@.len() == TILE_PIXELS,
            forall|j: int|
                0 <= j < TILE_PIXELS ==> #[trigger] buffer@[j] == if ll3_start <= j < i {
                    data.ll3@[j - ll3_start]
                } else {
                    data.coefficients@[j]
                },
        decreases TILE_PIXELS - i,
    {
        buffer[i] = data.ll3[i - ll3_start];
        i = i + 1;
    }
    let ghost joined = buffer@;
    let mut b: usize = 0;
    while b < 10
        invariant
            b <= 10,
            buffer@.len() == joined.len() == TILE_PIXELS,
            forall|j: int|
                0 <= j < TILE_PIXELS ==> #[trigger] buffer@[j] == if j < layout::band_start(
                    extrapolate,
                    b as int,
                ) {
                    shifted(joined[j], shift@[layout::band_of(extrapolate, j)] as int)
                } else {
                    joined[j]
                },
        decreases 10 - b,
    {
        let ghost before = buffer@;
        let off: usize = band_offset(extrapolate, b);
        let end: usize = band_offset(extrapolate, b + 1);
        assert(off <= end);
        lshift_band(&mut buffer, off, end, shift[b]);
        assert forall|j: int| off <= j < end implies layout::band_of(extrapolate, j) == b by {
            layout::law_bands_partition_the_tile(extrapolate, j, b as int);
        }
        b = b + 1;
    }
    assert(buffer@ =~= dequantized(data.coefficients@, data.ll3@, shift@, extrapolate));
    merge_coefficients(&mut buffer, current, coeff_diff);
    buffer
}

/// Joins the coefficients of a first pass with the current ones: they replace them, or are added
/// to them. Either way both are the same afterwards.
pub fn merge_coefficients(buffer: &mut Vec<i16>, current: &mut Vec<i16>, coeff_diff: bool)
    requires
        old(buffer)@.len() == TILE_PIXELS,
        old(current)@.len() == TILE_PIXELS,
    ensures
        final(buffer)@ == (if coeff_diff {
            summed(old(current)@, old(buffer)@)
        } else {
            old(buffer)@
        }),
        final(current)@ == final(buffer)@,
{
    let mut i: usize = 0;
    while i < TILE_PIXELS
        invariant
            i <= TILE_PIXELS,
            old(buffer)@.len() == TILE_PIXELS,
            old(current)@.len() == TILE_PIXELS,
            buffer@.len() == TILE_PIXELS,
            current@.len() == TILE_PIXELS,
            forall|j: int|
                0 <= j < i ==> #[trigger] buffer@[j] == (if coeff_diff {
                    summed(old(current)@, old(buffer)@)[j]
                } else {
                    old(buffer)@[j]
                }),
            forall|j: int| 0 <= j < i ==> #[trigger] current@[j] == buffer@[j],
            forall|j: int| i <= j < TILE_PIXELS ==> #[trigger] buffer@[j] == old(buffer)@[j],
            forall|j: int| i <= j < TILE_PIXELS ==> #[trigger] current@[j] == old(current)@[j],
        decreases TILE_PIXELS - i,
    {
        if coeff_diff {
            buffer[i] = wrap(buffer[i] as i64 + current[i] as i64);
        }
        current[i] = buffer[i];
        i = i + 1;
    }
    assert(current@ =~= buffer@);
    if coeff_diff {
        assert(buffer@ =~= summed(old(current)@, old(buffer)@));
    } else {
        assert(buffer@ =~= old(buffer)@);
    }
}

} // verus!
