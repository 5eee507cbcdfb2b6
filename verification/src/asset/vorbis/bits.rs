//! Fields of packed bits, the lowest bit of each byte first.
use vstd::prelude::*;

use vstd::arithmetic::power::lemma_pow_increases;
use vstd::arithmetic::power2::lemma2_to64;
use vstd::arithmetic::power2::lemma_pow2_unfold;
use vstd::arithmetic::power2::pow2;

use crate::number::width;

verus! {

pub open spec fn weight(i: int) -> int {
    if i == 0 {
        1
    } else if i == 1 {
        2
    } else if i == 2 {
        4
    } else if i == 3 {
        8
    } else if i == 4 {
        16
    } else if i == 5 {
        32
    } else if i == 6 {
        64
    } else {
        128
    }
}

pub open spec fn bit(d: Seq<u8>, p: int) -> int {
    (d[p / 8] as int / weight(p % 8)) % 2
}

/// There are `n` bits from `p` on.
pub open spec fn holds(d: Seq<u8>, p: int, n: int) -> bool {
    p + n <= 8 * d.len()
}

/// The number in the `n` bits from `p` on, the lowest first.
pub open spec fn field(d: Seq<u8>, p: int, n: nat) -> int
    decreases n,
{
    if n == 0 {
        0
    } else {
        bit(d, p) + 2 * field(d, p + 1, (n - 1) as nat)
    }
}

pub(crate) fn weight_of(i: u8) -> (r: u8)
    requires
        i < 8,
    ensures
        r == weight(i as int),
        r > 0,
{
    if i == 0 {
        1
    } else if i == 1 {
        2
    } else if i == 2 {
        4
    } else if i == 3 {
        8
    } else if i == 4 {
        16
    } else if i == 5 {
        32
    } else if i == 6 {
        64
    } else {
        128
    }
}

/// The field of `n` bits from `p` on, where it is there.
pub(crate) fn get(d: &Vec<u8>, p: u128, n: u8) -> (r: Option<u32>)
    requires
        n <= 32,
        p <= 8 * d@.len(),
    ensures
        8 * d@.len() <= 0x8_0000_0000_0000_0000,
        r is Some <==> holds(d@, p as int, n as int),
        r matches Some(v) ==> v == field(d@, p as int, n as nat) && v < pow2(n as nat),
{
    let total: u128 = d.len() as u128 * 8;
    if p + n as u128 > total {
        return None;
    }
    let mut k: u8 = n;
    let mut v: u64 = 0;
    proof {
        lemma2_to64();
    }
    while k > 0
        invariant
            k <= n <= 32,
            p + n <= 8 * d@.len(),
            d@.len() <= usize::MAX,
            v == field(d@, p + k, (n - k) as nat),
            v < pow2((n - k) as nat),
            pow2((n - k) as nat) <= 0x1_0000_0000,
        decreases k,
    {
        k = k - 1;
        let at: u128 = p + k as u128;
        let b: u8 = (d[(at / 8) as usize] / weight_of((at % 8) as u8)) % 2;
        assert(b == bit(d@, p + k));
        proof {
            lemma_pow2_unfold((n - k) as nat);
            lemma2_to64();
            lemma_pow_increases(2, (n - k) as nat, 32);
        }
        v = v * 2 + b as u64;
    }
    Some(v as u32)
}

pub(crate) fn width_of(n: u32) -> (r: u8)
    ensures
        r == width(n as int),
        r <= 32,
{
    let mut m: u32 = n;
    let mut w: u8 = 0;
    proof {
        lemma2_to64();
    }
    while m > 0
        invariant
            w + width(m as int) == width(n as int),
            w <= 32,
            m < pow2((32 - w) as nat),
        decreases m,
    {
        proof {
            if w == 32 {
                lemma2_to64();
            } else {
                lemma_pow2_unfold((32 - w) as nat);
            }
        }
        m = m / 2;
        w = w + 1;
    }
    w
}

/// A field is never negative and is less than what its bits can write.
pub proof fn lemma_field_bound(d: Seq<u8>, p: int, n: nat)
    ensures
        0 <= field(d, p, n) < pow2(n),
    decreases n,
{
    if n == 0 {
        lemma2_to64();
    } else {
        lemma_field_bound(d, p + 1, (n - 1) as nat);
        lemma_pow2_unfold(n);
    }
}

} // verus!
