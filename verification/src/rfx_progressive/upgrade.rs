//! The upgrade pass: coefficients are refined by bits from two streams.
//!
//! A coefficient whose sign is known takes its bits from the RAW stream. One that has been zero so
//! far takes a value from the SRL stream, where runs of zeros are coded with an adaptive
//! parameter. The coefficients of the last band always take theirs from the RAW stream.

use crate::rfx_progressive::bits;
use crate::rfx_progressive::bits::{power_of_two, wrap, BitStream};
use crate::rfx_progressive::layout;
use crate::rfx_progressive::layout::{band_offset, TILE_PIXELS};
use vstd::arithmetic::power2::*;
use vstd::prelude::*;

verus! {

/// How far an upgrade has come in its two streams, and the state of the SRL code.
pub struct UpgradePosition {
    pub srl: int,
    pub raw: int,
    /// The adaptive parameter, in eighths.
    pub kp: int,
    /// How many more zeros the current run holds.
    pub nz: int,
    /// A run has ended and a value comes next.
    pub mode: bool,
}

impl UpgradePosition {
    /// The start of both streams.
    pub open spec fn start() -> UpgradePosition {
        UpgradePosition { srl: 0, raw: 0, kp: 8, nz: 0, mode: false }
    }

    /// The bounds of the SRL code's state.
    pub open spec fn wf(self) -> bool {
        &&& 0 <= self.srl
        &&& 0 <= self.raw
        &&& 0 <= self.kp <= 80
        &&& 0 <= self.nz < 1024
    }
}

/// The next value of the SRL stream, of a magnitude of at most `num_bits` bits.
pub open spec fn srl_value(srl: Seq<u8>, u: UpgradePosition, num_bits: int) -> (
    UpgradePosition,
    int,
) {
    let k = (u.kp / 8) as nat;
    if u.nz > 0 {
        (UpgradePosition { nz: u.nz - 1, ..u }, 0)
    } else if !u.mode && bits::bit(srl, u.srl) == 0 {
        // A full run of zeros, this value among them. The next runs are taken to be longer.
        let kp = if u.kp + 4 > 80 {
            80
        } else {
            u.kp + 4
        };
        (UpgradePosition { srl: u.srl + 1, nz: pow2(k) - 1, kp, ..u }, 0)
    } else {
        let run = if u.mode {
            0
        } else {
            bits::bits(srl, u.srl + 1, k)
        };
        let at = if u.mode {
            u.srl
        } else {
            u.srl + 1 + k
        };
        if run > 0 {
            // A shorter run of zeros, with a value behind it.
            (UpgradePosition { srl: at, nz: run - 1, mode: true, ..u }, 0)
        } else {
            // A value: its sign, and its magnitude in unary notation. The next runs are taken to
            // be shorter.
            let most = pow2(num_bits as nat) - 1;
            let zeros = bits::zeros(srl, at + 1, most - 1);
            let end = at + 1 + zeros + (if 1 + zeros < most {
                1int
            } else {
                0
            });
            let kp = if u.kp < 6 {
                0
            } else {
                u.kp - 6
            };
            let magnitude = if 1 + zeros > 0x7FFF {
                0x7FFF
            } else {
                1 + zeros
            };
            let value = if bits::bit(srl, at) != 0 {
                -magnitude
            } else {
                magnitude
            };
            (UpgradePosition { srl: end, kp, nz: 0, mode: false, ..u }, value)
        }
    }
}

/// How far a value of the SRL stream reaches.
proof fn lemma_srl_advance(srl: Seq<u8>, u: UpgradePosition, num_bits: int)
    requires
        u.wf(),
        num_bits >= 1,
    ensures
        u.srl <= srl_value(srl, u, num_bits).0.srl <= u.srl + pow2(num_bits as nat) + 0x10,
{
    let k = (u.kp / 8) as nat;
    lemma2_to64();
    if num_bits > 1 {
        lemma_pow2_strictly_increases(1, num_bits as nat);
    }
    let at = if u.mode {
        u.srl
    } else {
        u.srl + 1 + k
    };
    bits::lemma_zeros_bound(srl, at + 1, pow2(num_bits as nat) - 2);
}

/// The coefficients of a component, and the signs that are known of them.
#[verifier::ext_equal]
pub struct Coefficients {
    pub current: Seq<i16>,
    pub sign: Seq<i16>,
}

/// The two streams of an upgrade.
pub struct UpgradeStreams {
    pub srl: Seq<u8>,
    pub raw: Seq<u8>,
}

/// What is added to a coefficient of the given sign, before it is shifted: the position after it,
/// the addend, and the sign that is known afterwards.
pub open spec fn refinement(
    d: UpgradeStreams,
    u: UpgradePosition,
    sign: i16,
    num_bits: int,
    use_sign: bool,
) -> (UpgradePosition, int, i16) {
    let raw = bits::bits(d.raw, u.raw, num_bits as nat);
    let past_raw = UpgradePosition { raw: u.raw + num_bits, ..u };
    if !use_sign || sign > 0 {
        (past_raw, raw, sign)
    } else if sign < 0 {
        (past_raw, -raw, sign)
    } else {
        let (next, value) = srl_value(d.srl, u, num_bits);
        (next, value, value as i16)
    }
}

/// The refinement of the coefficients from `i` to `end`.
pub open spec fn refine(
    d: UpgradeStreams,
    u: UpgradePosition,
    c: Coefficients,
    i: int,
    end: int,
    shift: int,
    num_bits: int,
    use_sign: bool,
) -> (UpgradePosition, Coefficients)
    decreases end - i,
{
    if i >= end {
        (u, c)
    } else {
        let (next, input, sign) = refinement(d, u, c.sign[i], num_bits, use_sign);
        let refined = Coefficients {
            current: c.current.update(
                i,
                bits::wrap16(c.current[i] + input * pow2(shift as nat)),
            ),
            sign: c.sign.update(i, sign),
        };
        refine(d, next, refined, i + 1, end, shift, num_bits, use_sign)
    }
}

/// The refinement of the bands from `b` on: band by band, with the last one from the RAW stream
/// alone. A band that gains no bits is left alone.
pub open spec fn refine_bands(
    d: UpgradeStreams,
    u: UpgradePosition,
    c: Coefficients,
    b: int,
    shift: Seq<i32>,
    num_bits: Seq<i32>,
) -> (UpgradePosition, Coefficients)
    decreases 10 - b,
{
    if b >= 10 {
        (u, c)
    } else {
        let (next, refined) = if num_bits[b] < 1 {
            (u, c)
        } else {
            refine(
                d,
                u,
                c,
                layout::band_start(true, b),
                layout::band_start(true, b + 1),
                shift[b] as int,
                num_bits[b] as int,
                b < 9,
            )
        };
        refine_bands(d, next, refined, b + 1, shift, num_bits)
    }
}

/// The coefficients of a component after an upgrade.
pub open spec fn upgraded(
    d: UpgradeStreams,
    c: Coefficients,
    shift: Seq<i32>,
    num_bits: Seq<i32>,
) -> Coefficients {
    refine_bands(d, UpgradePosition::start(), c, 0, shift, num_bits).1
}

/// The state of an upgrade.
pub struct UpgradeState<'a> {
    pub srl: BitStream<'a>,
    pub raw: BitStream<'a>,
    pub kp: i32,
    pub nz: i32,
    pub mode: bool,
}

impl<'a> UpgradeState<'a> {
    /// Where the upgrade stands.
    pub open spec fn position(&self) -> UpgradePosition {
        UpgradePosition {
            srl: self.srl.pos as int,
            raw: self.raw.pos as int,
            kp: self.kp as int,
            nz: self.nz as int,
            mode: self.mode,
        }
    }

    /// What the upgrade reads.
    pub open spec fn streams(&self) -> UpgradeStreams {
        UpgradeStreams { srl: self.srl.data@, raw: self.raw.data@ }
    }

    /// An upgrade at the start of its streams.
    pub fn new(srl_data: &'a [u8], raw_data: &'a [u8]) -> (r: Self)
        ensures
            r.position() == UpgradePosition::start(),
            r.streams() == (UpgradeStreams { srl: srl_data@, raw: raw_data@ }),
    {
        UpgradeState {
            srl: BitStream::new(srl_data),
            raw: BitStream::new(raw_data),
            kp: 8,
            nz: 0,
            mode: false,
        }
    }

    /// Reads a magnitude from the RAW stream.
    pub fn raw_shift(&mut self, num_bits: u32) -> (r: i32)
        requires
            num_bits <= 31,
            old(self).raw.pos + num_bits <= u64::MAX,
        ensures
            final(self).streams() == old(self).streams(),
            final(self).position() == (UpgradePosition {
                raw: old(self).raw.pos + num_bits,
                ..old(self).position()
            }),
            r == bits::bits(old(self).raw.data@, old(self).raw.pos as int, num_bits as nat),
            0 <= r < pow2(num_bits as nat),
    {
        proof {
            lemma2_to64();
            if num_bits < 31 {
                lemma_pow2_strictly_increases(num_bits as nat, 31);
            }
        }
        self.raw.read_bits(num_bits) as i32
    }

    /// Reads a value from the SRL stream. The position behind it must fit the counter.
    pub fn srl_read(&mut self, num_bits: u32) -> (r: i16)
        requires
            1 <= num_bits <= 31,
            old(self).position().wf(),
            srl_value(old(self).srl.data@, old(self).position(), num_bits as int).0.srl
                <= u64::MAX,
        ensures
            final(self).streams() == old(self).streams(),
            (final(self).position(), r as int) == srl_value(
                old(self).srl.data@,
                old(self).position(),
                num_bits as int,
            ),
            final(self).position().wf(),
            -0x7FFF <= r <= 0x7FFF,
    {
        if self.nz > 0 {
            self.nz = self.nz - 1;
            return 0;
        }
        let k: u32 = (self.kp / 8) as u32;
        proof {
            lemma2_to64();
            if k < 10 {
                lemma_pow2_strictly_increases(k as nat, 10);
            }
            lemma_pow2_pos(k as nat);
            if num_bits < 31 {
                lemma_pow2_strictly_increases(num_bits as nat, 31);
            }
            if num_bits > 1 {
                lemma_pow2_strictly_increases(1, num_bits as nat);
            }
            let behind: int = if self.mode {
                self.srl.pos + 1
            } else {
                self.srl.pos + k + 2
            };
            bits::lemma_zeros_bound(self.srl.data@, behind, pow2(num_bits as nat) - 2);
        }
        if !self.mode {
            if self.srl.read_bit() == 0 {
                self.nz = (power_of_two(k) - 1) as i32;
                self.kp = self.kp + 4;
                if self.kp > 80 {
                    self.kp = 80;
                }
                return 0;
            }
            let run: u32 = self.srl.read_bits(k);
            if run > 0 {
                self.mode = true;
                self.nz = (run - 1) as i32;
                return 0;
            }
        }
        self.mode = false;
        let negative: bool = self.srl.read_bit() != 0;
        if self.kp < 6 {
            self.kp = 0;
        } else {
            self.kp = self.kp - 6;
        }
        let most: u32 = (power_of_two(num_bits) - 1) as u32;
        let mut magnitude: u32 = 1;
        let mut more: bool = true;
        let ghost at = self.srl.pos as int;
        let ghost begun = *self;
        while more && magnitude < most
            invariant
                *self == (UpgradeState { srl: self.srl, ..begun }),
                self.srl.data@ == begun.srl.data@,
                begun.srl.pos == at,
                ({
                    let zeros = bits::zeros(begun.srl.data@, at, most - 1);
                    at + zeros + (if 1 + zeros < most {
                        1int
                    } else {
                        0
                    }) <= u64::MAX
                }),
                1 <= magnitude <= most < 0x8000_0000,
                more ==> bits::zeros(begun.srl.data@, at, most - 1) == magnitude - 1
                    + bits::zeros(begun.srl.data@, self.srl.pos as int, most - magnitude),
                more ==> self.srl.pos == at + magnitude - 1,
                !more ==> {
                    &&& magnitude < most
                    &&& bits::zeros(begun.srl.data@, at, most - 1) == magnitude - 1
                    &&& self.srl.pos == at + magnitude
                },
            decreases most - magnitude + (if more {
                1int
            } else {
                0
            }),
        {
            proof {
                bits::lemma_zeros_bound(
                    self.srl.data@,
                    self.srl.pos + 1,
                    most - magnitude - 1,
                );
            }
            if self.srl.read_bit() != 0 {
                more = false;
            } else {
                magnitude = magnitude + 1;
            }
        }
        let value: i16 = if magnitude > 0x7FFF {
            0x7FFF
        } else {
            magnitude as i16
        };
        if negative {
            -value
        } else {
            value
        }
    }
}

/// Refines the coefficients from `off` to `end`.
pub fn upgrade_block(
    st: &mut UpgradeState<'_>,
    current: &mut Vec<i16>,
    sign: &mut Vec<i16>,
    off: usize,
    end: usize,
    shift: i32,
    num_bits: i32,
    use_sign: bool,
)
    requires
        off <= end <= old(current)@.len(),
        old(sign)@.len() == old(current)@.len(),
        old(st).position().wf(),
        num_bits >= 1 ==> {
            &&& 0 <= shift <= 29
            &&& num_bits <= 30
            &&& old(st).srl.pos + (end - off) * 0x8000_0000 <= u64::MAX
            &&& old(st).raw.pos + (end - off) * 0x8000_0000 <= u64::MAX
        },
    ensures
        final(st).streams() == old(st).streams(),
        final(st).position().wf(),
        final(st).srl.pos <= old(st).srl.pos + (end - off) * 0x8000_0000,
        final(st).raw.pos <= old(st).raw.pos + (end - off) * 0x8000_0000,
        final(current)@.len() == old(current)@.len(),
        final(sign)@.len() == old(sign)@.len(),
        ({
            let c = Coefficients { current: old(current)@, sign: old(sign)@ };
            let after = (
                final(st).position(),
                Coefficients { current: final(current)@, sign: final(sign)@ },
            );
            after == if num_bits < 1 {
                (old(st).position(), c)
            } else {
                refine(
                    old(st).streams(),
                    old(st).position(),
                    c,
                    off as int,
                    end as int,
                    shift as int,
                    num_bits as int,
                    use_sign,
                )
            }
        }),
{
    if num_bits < 1 {
        return;
    }
    let ghost d = st.streams();
    let ghost whole = refine(
        d,
        st.position(),
        Coefficients { current: current@, sign: sign@ },
        off as int,
        end as int,
        shift as int,
        num_bits as int,
        use_sign,
    );
    let factor: i64 = power_of_two(shift as u32);
    proof {
        lemma2_to64();
        lemma_pow2_strictly_increases(shift as nat, 30);
        if num_bits < 30 {
            lemma_pow2_strictly_increases(num_bits as nat, 30);
        }
    }
    let mut i: usize = off;
    while i < end
        invariant
            off <= i <= end <= current@.len(),
            current@.len() == old(current)@.len(),
            sign@.len() == old(sign)@.len() == current@.len(),
            0 <= shift <= 29,
            1 <= num_bits <= 30,
            pow2(num_bits as nat) <= 0x4000_0000,
            factor == pow2(shift as nat),
            1 <= factor <= 0x4000_0000,
            st.streams() == d,
            st.position().wf(),
            old(st).srl.pos + (end - off) * 0x8000_0000 <= u64::MAX,
            old(st).raw.pos + (end - off) * 0x8000_0000 <= u64::MAX,
            st.srl.pos <= old(st).srl.pos + (i - off) * 0x8000_0000,
            st.raw.pos <= old(st).raw.pos + (i - off) * 0x8000_0000,
            whole == refine(
                d,
                st.position(),
                Coefficients { current: current@, sign: sign@ },
                i as int,
                end as int,
                shift as int,
                num_bits as int,
                use_sign,
            ),
        decreases end - i,
    {
        let ghost c = Coefficients { current: current@, sign: sign@ };
        let ghost before = st.position();
        proof {
            lemma_srl_advance(d.srl, before, num_bits as int);
        }
        let input: i32 = if !use_sign || sign[i] > 0 {
            st.raw_shift(num_bits as u32)
        } else if sign[i] < 0 {
            -st.raw_shift(num_bits as u32)
        } else {
            let value: i16 = st.srl_read(num_bits as u32);
            sign[i] = value;
            value as i32
        };
        assert(-0x1000_0000_0000_0000 <= input * factor <= 0x1000_0000_0000_0000)
            by (nonlinear_arith)
            requires
                -0x4000_0000 < input < 0x4000_0000,
                1 <= factor <= 0x4000_0000,
        ;
        current[i] = wrap(current[i] as i64 + input as i64 * factor);
        proof {
            let next = refinement(d, before, c.sign[i as int], num_bits as int, use_sign);
            assert(st.position() == next.0);
            assert(c.sign.update(i as int, next.2) =~= sign@);
        }
        i = i + 1;
    }
}

/// Refines all bands of a component. The coefficients lie as the reduced-extrapolate transform
/// has them, which alone is used with upgrades.
pub fn upgrade_component(
    shift: &[i32; 10],
    num_bits: &[i32; 10],
    current: &mut Vec<i16>,
    sign: &mut Vec<i16>,
    srl_data: &[u8],
    raw_data: &[u8],
)
    requires
        old(current)@.len() == TILE_PIXELS,
        old(sign)@.len() == TILE_PIXELS,
        forall|b: int|
            0 <= b < 10 && #[trigger] num_bits@[b] >= 1 ==> num_bits@[b] <= 30 && 0 <= shift@[b]
                <= 29,
    ensures
        final(current)@.len() == TILE_PIXELS,
        final(sign)@.len() == TILE_PIXELS,
        (Coefficients { current: final(current)@, sign: final(sign)@ }) == upgraded(
            UpgradeStreams { srl: srl_data@, raw: raw_data@ },
            Coefficients { current: old(current)@, sign: old(sign)@ },
            shift@,
            num_bits@,
        ),
{
    let mut st = UpgradeState::new(srl_data, raw_data);
    let ghost d = st.streams();
    let ghost whole = refine_bands(
        d,
        st.position(),
        Coefficients { current: current@, sign: sign@ },
        0,
        shift@,
        num_bits@,
    );
    let mut b: usize = 0;
    while b < 10
        invariant
            b <= 10,
            current@.len() == TILE_PIXELS,
            sign@.len() == TILE_PIXELS,
            forall|b: int|
                0 <= b < 10 && #[trigger] num_bits@[b] >= 1 ==> num_bits@[b] <= 30 && 0 <= shift@[b]
                    <= 29,
            st.streams() == d,
            st.position().wf(),
            st.srl.pos <= layout::band_start(true, b as int) * 0x8000_0000,
            st.raw.pos <= layout::band_start(true, b as int) * 0x8000_0000,
            whole == refine_bands(
                d,
                st.position(),
                Coefficients { current: current@, sign: sign@ },
                b as int,
                shift@,
                num_bits@,
            ),
        decreases 10 - b,
    {
        let off: usize = band_offset(true, b);
        let end: usize = band_offset(true, b + 1);
        upgrade_block(&mut st, current, sign, off, end, shift[b], num_bits[b], b < 9);
        b = b + 1;
    }
}

} // verus!
