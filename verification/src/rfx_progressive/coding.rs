//! How numbers are coded in the streams of an upgrade.

use crate::rfx_progressive::upgrade::UpgradePosition;
use crate::rfx_progressive::{bits, upgrade};
use vstd::arithmetic::div_mod::*;
use vstd::arithmetic::power2::*;
use vstd::prelude::*;

verus! {

/// Eight bits that start with a byte are that byte.
pub proof fn law_bytes_are_read_as_they_stand(s: Seq<u8>, k: int)
    requires
        0 <= k < s.len(),
    ensures
        bits::bits(s, 8 * k, 8) == s[k],
        bits::bits(s, 8 * k, 0) == 0,
{
    let b = s[k] as int;
    let p = 8 * k;
    lemma2_to64();
    lemma_div_basics(b);
    lemma_bit_of_byte(s, k, 0);
    lemma_bit_of_byte(s, k, 1);
    lemma_bit_of_byte(s, k, 2);
    lemma_bit_of_byte(s, k, 3);
    lemma_bit_of_byte(s, k, 4);
    lemma_bit_of_byte(s, k, 5);
    lemma_bit_of_byte(s, k, 6);
    lemma_bit_of_byte(s, k, 7);
    assert(bits::bits(s, p, 1) == b / 128);
    assert(bits::bits(s, p, 2) == b / 64);
    assert(bits::bits(s, p, 3) == b / 32);
    assert(bits::bits(s, p, 4) == b / 16);
    assert(bits::bits(s, p, 5) == b / 8);
    assert(bits::bits(s, p, 6) == b / 4);
    assert(bits::bits(s, p, 7) == b / 2);
}

proof fn lemma_bit_of_byte(s: Seq<u8>, k: int, j: int)
    requires
        0 <= k < s.len(),
        0 <= j < 8,
    ensures
        bits::bit(s, 8 * k + j) == s[k] as int / pow2((7 - j) as nat) as int % 2,
        bits::bits(s, 8 * k, (j + 1) as nat) == 2 * bits::bits(s, 8 * k, j as nat) + bits::bit(
            s,
            8 * k + j,
        ),
{
    assert((8 * k + j) / 8 == k && (8 * k + j) % 8 == j);
}

/// Where the SRL stream stands after one value of each of the given numbers of bits.
pub open spec fn behind_values(srl: Seq<u8>, u: UpgradePosition, num_bits: Seq<int>)
    -> UpgradePosition
    decreases num_bits.len(),
{
    if num_bits.len() == 0 {
        u
    } else {
        upgrade::srl_value(srl, behind_values(srl, u, num_bits.drop_last()), num_bits.last()).0
    }
}

/// The value that is read behind the given ones.
pub open spec fn value_behind(srl: Seq<u8>, u: UpgradePosition, num_bits: Seq<int>, n: int) -> int {
    upgrade::srl_value(srl, behind_values(srl, u, num_bits), n).1
}

/// The rest of a run is zeros, and takes no bits.
proof fn lemma_run(srl: Seq<u8>, u: UpgradePosition, num_bits: Seq<int>, j: int)
    requires
        0 <= j <= num_bits.len(),
        num_bits.len() <= u.nz,
    ensures
        behind_values(srl, u, num_bits.take(j)) == (UpgradePosition { nz: u.nz - j, ..u }),
    decreases j,
{
    if j > 0 {
        lemma_run(srl, u, num_bits, j - 1);
        assert(num_bits.take(j).drop_last() =~= num_bits.take(j - 1));
    }
}

/// Reading some values and then some more.
proof fn lemma_behind_joined(srl: Seq<u8>, u: UpgradePosition, a: Seq<int>, b: Seq<int>)
    ensures
        behind_values(srl, u, a + b) == behind_values(srl, behind_values(srl, u, a), b),
    decreases b.len(),
{
    if b.len() == 0 {
        assert(a + b =~= a);
    } else {
        lemma_behind_joined(srl, u, a, b.drop_last());
        assert((a + b).drop_last() =~= a + b.drop_last());
    }
}

/// A zero bit where a run can start stands for a full run: as many zeros as the parameter, in
/// eighths, is a power of two for. It takes that one bit, and the next full run is longer, by half
/// a bit of the parameter, which stays at ten at most.
pub proof fn law_zero_bit_is_a_full_run(srl: Seq<u8>, u: UpgradePosition, num_bits: Seq<int>)
    requires
        0 <= u.kp <= 80,
        u.nz == 0,
        !u.mode,
        bits::bit(srl, u.srl) == 0,
        num_bits.len() == pow2((u.kp / 8) as nat),
    ensures
        forall|j: int|
            0 <= j < num_bits.len() ==> value_behind(
                srl,
                u,
                #[trigger] num_bits.take(j),
                num_bits[j],
            ) == 0,
        behind_values(srl, u, num_bits) == (UpgradePosition {
            srl: u.srl + 1,
            kp: if u.kp <= 76 {
                u.kp + 4
            } else {
                80
            },
            ..u
        }),
{
    let run = num_bits.len() as int;
    lemma_pow2_pos((u.kp / 8) as nat);
    let first = num_bits.take(1);
    let started = upgrade::srl_value(srl, u, num_bits[0]).0;
    assert(first.drop_last() =~= Seq::empty());
    reveal_with_fuel(behind_values, 2);
    assert(behind_values(srl, u, first) == started);
    let rest = num_bits.skip(1);
    assert forall|j: int| 1 <= j <= run implies behind_values(srl, u, #[trigger] num_bits.take(j))
        == (UpgradePosition { nz: run - j, ..started }) by {
        lemma_run(srl, started, rest, j - 1);
        assert(num_bits.take(j) =~= first + rest.take(j - 1));
        lemma_behind_joined(srl, u, first, rest.take(j - 1));
    }
    assert(num_bits.take(0) =~= Seq::empty());
    assert(num_bits.take(run) =~= num_bits);
}

proof fn lemma_zeros_counted(s: Seq<u8>, pos: int, n: int, limit: int)
    requires
        0 <= n <= limit,
        forall|t: int| 0 <= t < n ==> bits::bit(s, #[trigger] (pos + t)) == 0,
        n < limit ==> bits::bit(s, pos + n) != 0,
    ensures
        bits::zeros(s, pos, limit) == n,
    decreases n,
{
    if n > 0 {
        assert(bits::bit(s, pos + 0) == 0);
        assert forall|t: int| 0 <= t < n - 1 implies bits::bit(s, #[trigger] (pos + 1 + t))
            == 0 by {
            assert(bits::bit(s, pos + (t + 1)) == 0);
        }
        lemma_zeros_counted(s, pos + 1, n - 1, limit - 1);
    }
}

/// A one bit where a run can start announces a value behind `run` zeros, a number of as many bits
/// as the parameter says. The value has its sign, and its magnitude in unary notation: a zero for
/// each step, up to the largest that its number of bits allows, and a one where it stops before.
/// Magnitudes above those of a word count as the largest of a word. The next runs are shorter, by
/// three quarters of a bit of the parameter, which stays at zero at least.
pub proof fn law_one_bit_announces_a_value(
    srl: Seq<u8>,
    u: UpgradePosition,
    run: int,
    magnitude: int,
    num_bits: Seq<int>,
    n: int,
)
    requires
        0 <= u.kp <= 80,
        u.nz == 0,
        !u.mode,
        bits::bit(srl, u.srl) == 1,
        run == bits::bits(srl, u.srl + 1, (u.kp / 8) as nat),
        num_bits.len() == run,
        n >= 1,
        1 <= magnitude < pow2(n as nat),
        ({
            let behind_sign = u.srl + 2 + u.kp / 8;
            &&& forall|t: int|
                0 <= t < magnitude - 1 ==> bits::bit(srl, #[trigger] (behind_sign + t)) == 0
            &&& magnitude < pow2(n as nat) - 1 ==> bits::bit(srl, behind_sign + (magnitude - 1))
                == 1
        }),
    ensures
        forall|j: int|
            0 <= j < run ==> value_behind(srl, u, #[trigger] num_bits.take(j), num_bits[j]) == 0,
        ({
            let word = if magnitude > 32767 {
                32767
            } else {
                magnitude
            };
            value_behind(srl, u, num_bits, n) == if bits::bit(srl, u.srl + 1 + u.kp / 8) == 1 {
                -word
            } else {
                word
            }
        }),
        behind_values(srl, u, num_bits.push(n)) == (UpgradePosition {
            srl: u.srl + 1 + u.kp / 8 + magnitude + if magnitude < pow2(n as nat) - 1 {
                1int
            } else {
                0
            },
            kp: if u.kp >= 6 {
                u.kp - 6
            } else {
                0
            },
            ..u
        }),
{
    let k = (u.kp / 8) as nat;
    bits::lemma_bits_bound(srl, u.srl + 1, k);
    let behind_sign = u.srl + 2 + u.kp / 8;
    lemma_zeros_counted(srl, behind_sign, magnitude - 1, pow2(n as nat) - 2);
    lemma_bit_is_small(srl, u.srl + 1 + u.kp / 8);
    let all = num_bits.push(n);
    assert(all.drop_last() =~= num_bits);
    if run == 0 {
        assert(num_bits =~= Seq::empty());
    } else {
        let first = num_bits.take(1);
        let started = upgrade::srl_value(srl, u, num_bits[0]).0;
        assert(first.drop_last() =~= Seq::empty());
        reveal_with_fuel(behind_values, 2);
        assert(behind_values(srl, u, first) == started);
        let rest = num_bits.skip(1);
        assert forall|j: int| 1 <= j <= run implies behind_values(
            srl,
            u,
            #[trigger] num_bits.take(j),
        ) == (UpgradePosition { nz: run - j, ..started }) by {
            lemma_run(srl, started, rest, j - 1);
            assert(num_bits.take(j) =~= first + rest.take(j - 1));
            lemma_behind_joined(srl, u, first, rest.take(j - 1));
        }
        assert(num_bits.take(0) =~= Seq::empty());
        assert(num_bits.take(run) =~= num_bits);
    }
}

proof fn lemma_bit_is_small(s: Seq<u8>, pos: int)
    ensures
        bits::bit(s, pos) == 0 || bits::bit(s, pos) == 1,
{
}

} // verus!
