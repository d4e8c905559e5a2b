//! Powers of two, and address arithmetic by bitwise OR.

use vstd::arithmetic::power2::{
    lemma2_to64, lemma2_to64_rest, lemma_pow2_adds, lemma_pow2_pos, lemma_pow2_strictly_increases,
    lemma_pow2_unfold, pow2,
};
use vstd::bits::{lemma_u64_low_bits_mask_is_mod, low_bits_mask};
use vstd::prelude::*;

verus! {

pub open spec fn is_power(n: int) -> bool {
    exists|k: nat| n == #[trigger] pow2(k)
}

/// The least power of two not below `n`, among `p`, `2p`, `4p` and so on.
pub open spec fn power_from(n: nat, p: nat) -> nat
    decreases (if p < n { n - p } else { 0 }),
{
    if p == 0 || p >= n {
        p
    } else {
        power_from(n, 2 * p)
    }
}

/// The least power of two not below `n`.
pub open spec fn next_power(n: nat) -> nat {
    power_from(n, 1)
}

/// The exponent of a power of two.
pub fn exponent_of(n: u64) -> (r: Option<u32>)
    ensures
        r matches Some(k) ==> n == pow2(k as nat) && k < 64,
        r is None ==> !is_power(n as int),
{
    let mut p: u64 = 1;
    let mut k: u32 = 0;
    proof {
        lemma2_to64();
        lemma2_to64_rest();
        if n == 0 {
            assert forall|j: nat| n != #[trigger] pow2(j) by {
                lemma_pow2_pos(j);
            }
        }
    }
    if n == 0 {
        return None;
    }
    while p < n
        invariant
            p == pow2(k as nat),
            0 < p,
            k < 64,
            k > 0 ==> pow2((k - 1) as nat) < n,
        decreases n - p,
    {
        if p > n / 2 {
            proof {
                lemma_pow2_unfold((k + 1) as nat);
                assert forall|j: nat| n != #[trigger] pow2(j) by {
                    if j < k {
                        lemma_pow2_strictly_increases(j, k as nat);
                    }
                    if k + 1 < j {
                        lemma_pow2_strictly_increases((k + 1) as nat, j);
                    }
                }
            }
            return None;
        }
        proof {
            lemma_pow2_unfold((k + 1) as nat);
            if k == 63 {
                lemma2_to64_rest();
            }
        }
        p = 2 * p;
        k = k + 1;
    }
    if p == n {
        Some(k)
    } else {
        proof {
            assert forall|j: nat| n != #[trigger] pow2(j) by {
                if j < k {
                    if j < k - 1 {
                        lemma_pow2_strictly_increases(j, (k - 1) as nat);
                    }
                }
                if k < j {
                    lemma_pow2_strictly_increases(k as nat, j);
                }
            }
        }
        None
    }
}

/// Is `n` a power of two?
pub fn is_power_of_two(n: u64) -> (r: bool)
    ensures
        r == is_power(n as int),
{
    exponent_of(n).is_some()
}

/// The least power of two not below `n`, where it fits.
pub fn next_power_of_two(n: u64) -> (r: Option<u64>)
    ensures
        r matches Some(p) ==> p == next_power(n as nat),
        r is None ==> next_power(n as nat) > u64::MAX,
{
    let mut p: u64 = 1;
    while p < n
        invariant
            0 < p,
            next_power(n as nat) == power_from(n as nat, p as nat),
        decreases (if p < n { n - p } else { 0 }),
    {
        if p > u64::MAX / 2 {
            proof {
                power_from_is_large(n as nat, 2 * p as nat);
            }
            return None;
        }
        p = 2 * p;
    }
    Some(p)
}

proof fn power_from_is_large(n: nat, p: nat)
    ensures
        power_from(n, p) >= p,
    decreases (if p < n { n - p } else { 0 }),
{
    if !(p == 0 || p >= n) {
        power_from_is_large(n, 2 * p);
    }
}

proof fn power_from_props(n: nat, k: nat)
    ensures
        is_power(power_from(n, pow2(k)) as int),
        power_from(n, pow2(k)) >= n,
    decreases (if pow2(k) < n { n - pow2(k) } else { 0 }),
{
    lemma_pow2_pos(k);
    if pow2(k) >= n {
    } else {
        lemma_pow2_unfold(k + 1);
        power_from_props(n, k + 1);
    }
}

/// The least power of two not below `n` is a power of two, and not below `n`.
pub proof fn next_power_props(n: nat)
    ensures
        is_power(next_power(n) as int),
        next_power(n) >= n,
{
    lemma2_to64();
    power_from_props(n, 0);
}

/// Above a multiple of a power of two, bitwise OR adds what is smaller than that power.
pub proof fn or_adds(a: u64, b: u64, p: int)
    requires
        is_power(p),
        a as int % p == 0,
        b < p <= u64::MAX,
    ensures
        a | b == a + b,
{
    let k = choose|k: nat| p == #[trigger] pow2(k);
    lemma2_to64();
    lemma2_to64_rest();
    if k >= 64 {
        if k > 64 {
            lemma_pow2_strictly_increases(64, k);
        }
    }
    let m = low_bits_mask(k) as u64;
    lemma_u64_low_bits_mask_is_mod(a, k);
    lemma_u64_low_bits_mask_is_mod(b, k);
    assert(b as int % p == b) by (nonlinear_arith)
        requires
            0 <= b < p,
    ;
    assert(a & m == 0);
    assert(b & m == b);
    assert(a | b == a + b) by (bit_vector)
        requires
            a & m == 0,
            b & m == b,
    ;
}

pub proof fn power_positive(n: int)
    requires
        is_power(n),
    ensures
        n > 0,
{
    let k = choose|k: nat| n == #[trigger] pow2(k);
    lemma_pow2_pos(k);
}

/// Of two powers of two the smaller divides the larger, and the quotient is a
/// power of two.
pub proof fn power_multiple(p: int, q: int)
    requires
        is_power(p),
        is_power(q),
        q <= p,
    ensures
        p == (p / q) * q,
        is_power(p / q),
        p / q > 0,
{
    let i = choose|k: nat| p == #[trigger] pow2(k);
    let j = choose|k: nat| q == #[trigger] pow2(k);
    if i < j {
        lemma_pow2_strictly_increases(i, j);
    }
    lemma_pow2_pos(j);
    let d = (i - j) as nat;
    lemma_pow2_pos(d);
    lemma_pow2_adds(d, j);
    assert(p / q == pow2(d)) by (nonlinear_arith)
        requires
            p == pow2(d) * q,
            q > 0,
    ;
}

/// A power of two `p` not below the power of two `s`, which `q` divides, is a
/// multiple of `q`, and so is `s`; the quotients are powers of two.
pub proof fn power_divides(p: int, q: int, s: int)
    requires
        is_power(p),
        is_power(q),
        is_power(s),
        s <= p,
        s % q == 0,
        q > 0,
    ensures
        p == (p / q) * q,
        is_power(p / q),
        is_power(s / q),
        p / q > 0,
{
    let k = choose|k: nat| s == #[trigger] pow2(k);
    lemma_pow2_pos(k);
    assert(q <= s) by (nonlinear_arith)
        requires
            s % q == 0,
            s > 0,
            q > 0,
    ;
    power_multiple(p, q);
    power_multiple(s, q);
}

} // verus!
