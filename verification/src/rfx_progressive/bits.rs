//! Bits and 16-bit words.

use vstd::arithmetic::power2::*;
use vstd::prelude::*;

verus! {

/// The `pos`-th bit, most significant first. Past the end every bit is zero.
pub open spec fn bit(s: Seq<u8>, pos: int) -> int {
    if 0 <= pos / 8 < s.len() {
        (s[pos / 8] as int / pow2((7 - pos % 8) as nat) as int) % 2
    } else {
        0
    }
}

/// The number that the `n` bits from `pos` on stand for.
pub open spec fn bits(s: Seq<u8>, pos: int, n: nat) -> int
    decreases n,
{
    if n == 0 {
        0
    } else {
        2 * bits(s, pos, (n - 1) as nat) + bit(s, pos + n - 1)
    }
}

/// How many zero bits there are from `pos` on, counted up to `limit`.
pub open spec fn zeros(s: Seq<u8>, pos: int, limit: int) -> int
    decreases limit,
{
    if limit <= 0 || bit(s, pos) != 0 {
        0
    } else {
        1 + zeros(s, pos + 1, limit - 1)
    }
}

/// The low 16 bits of a number in two's complement.
pub open spec fn wrap16(n: int) -> i16 {
    ((n + 0x8000) % 0x1_0000 - 0x8000) as i16
}

/// `n` bits make a number below `2^n`.
pub proof fn lemma_bits_bound(s: Seq<u8>, pos: int, n: nat)
    ensures
        0 <= bits(s, pos, n) < pow2(n),
    decreases n,
{
    if n == 0 {
        lemma2_to64();
    } else {
        lemma_bits_bound(s, pos, (n - 1) as nat);
        lemma_pow2_unfold(n);
    }
}

/// A count of zeros lies between zero and its limit.
pub proof fn lemma_zeros_bound(s: Seq<u8>, pos: int, limit: int)
    ensures
        0 <= zeros(s, pos, limit),
        0 <= limit ==> zeros(s, pos, limit) <= limit,
    decreases limit,
{
    if limit > 0 && bit(s, pos) == 0 {
        lemma_zeros_bound(s, pos + 1, limit - 1);
    }
}

/// A number can be read in two parts: its high bits, and behind them its low ones.
pub proof fn law_reads_can_be_split(s: Seq<u8>, pos: int, a: nat, n: nat)
    ensures
        bits(s, pos, a + n) == bits(s, pos, a) * pow2(n) + bits(s, pos + a, n),
        bits(s, pos + a, n) < pow2(n),
    decreases n,
{
    lemma2_to64();
    lemma_bits_bound(s, pos + a, n);
    if n > 0 {
        let m = (n - 1) as nat;
        law_reads_can_be_split(s, pos, a, m);
        lemma_pow2_unfold(n);
        assert(bits(s, pos, a) * (2 * pow2(m)) == 2 * (bits(s, pos, a) * pow2(m)))
            by (nonlinear_arith);
        assert((a + n - 1) as nat == a + m);
    }
}

/// A power of two.
pub fn power_of_two(n: u32) -> (r: i64)
    requires
        n <= 40,
    ensures
        r == pow2(n as nat),
        1 <= r <= 0x100_0000_0000,
    decreases n,
{
    proof {
        lemma2_to64();
        lemma2_to64_rest();
    }
    if n == 0 {
        1
    } else {
        proof {
            lemma_pow2_unfold(n as nat);
            if n - 1 < 39 {
                lemma_pow2_strictly_increases((n - 1) as nat, 39);
            }
        }
        2 * power_of_two(n - 1)
    }
}

/// Cuts a number to its low 16 bits.
pub fn wrap(n: i64) -> (r: i16)
    requires
        -0x4000_0000_0000_0000 <= n <= 0x3000_0000_0000_0000,
    ensures
        r == wrap16(n as int),
{
    let biased: u64 = (n + 0x4000_0000_0000_8000) as u64;
    let low: i64 = (biased % 0x1_0000) as i64;
    (low - 0x8000) as i16
}

/// Reads bits, most significant first.
pub struct BitStream<'a> {
    pub data: &'a [u8],
    /// The position in bits.
    pub pos: u64,
}

impl<'a> BitStream<'a> {
    /// A reader at the first bit.
    pub fn new(data: &'a [u8]) -> (r: Self)
        ensures
            r.data@ == data@,
            r.pos == 0,
    {
        BitStream { data, pos: 0 }
    }

    /// Reads one bit.
    pub fn read_bit(&mut self) -> (r: u32)
        requires
            old(self).pos < u64::MAX,
        ensures
            final(self).data@ == old(self).data@,
            final(self).pos == old(self).pos + 1,
            r == bit(old(self).data@, old(self).pos as int),
            r <= 1,
    {
        let at: u64 = self.pos / 8;
        let place: u32 = (7 - self.pos % 8) as u32;
        let byte: u8 = if at < self.data.len() as u64 {
            self.data[at as usize]
        } else {
            0
        };
        proof {
            lemma2_to64();
        }
        let r: u32 = ((byte as i64 / power_of_two(place)) % 2) as u32;
        self.pos = self.pos + 1;
        r
    }

    /// Reads a number of `n` bits.
    pub fn read_bits(&mut self, n: u32) -> (r: u32)
        requires
            n <= 31,
            old(self).pos + n <= u64::MAX,
        ensures
            final(self).data@ == old(self).data@,
            final(self).pos == old(self).pos + n,
            r == bits(old(self).data@, old(self).pos as int, n as nat),
            r < pow2(n as nat),
    {
        let mut v: u32 = 0;
        let mut i: u32 = 0;
        proof {
            lemma_bits_bound(self.data@, self.pos as int, n as nat);
        }
        while i < n
            invariant
                i <= n <= 31,
                self.data@ == old(self).data@,
                self.pos == old(self).pos + i,
                old(self).pos + n <= u64::MAX,
                v == bits(old(self).data@, old(self).pos as int, i as nat),
            decreases n - i,
        {
            proof {
                lemma_bits_bound(old(self).data@, old(self).pos as int, i as nat);
                lemma2_to64();
                if i < 31 {
                    lemma_pow2_strictly_increases(i as nat, 31);
                }
            }
            v = v * 2 + self.read_bit();
            i = i + 1;
        }
        v
    }
}

} // verus!
