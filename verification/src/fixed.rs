//! Exact fixed-point arithmetic helpers: integer square root, a fixed-point
//! decaying exponential used by the Metropolis acceptance rule, and
//! quarter-wave sine/cosine used by the orbital heat-source motion.

use vstd::prelude::*;

verus! {

/// Mathematical floor of the square root, defined by recursion on `n`.
pub open spec fn sqrt_floor(n: nat) -> nat
    decreases n,
{
    if n == 0 {
        0
    } else {
        let p = sqrt_floor((n - 1) as nat);
        if (p + 1) * (p + 1) <= n {
            p + 1
        } else {
            p
        }
    }
}

/// `sqrt_floor(n)` really is the floor of the square root of `n`.
pub proof fn lemma_sqrt_floor_bounds(n: nat)
    ensures
        sqrt_floor(n) * sqrt_floor(n) <= n,
        n < (sqrt_floor(n) + 1) * (sqrt_floor(n) + 1),
    decreases n,
{
    if n == 0 {
        assert(sqrt_floor(0) == 0);
        assert(n < (sqrt_floor(n) + 1) * (sqrt_floor(n) + 1)) by (nonlinear_arith)
            requires
                n == 0,
                sqrt_floor(n) == 0,
        ;
    } else {
        lemma_sqrt_floor_bounds((n - 1) as nat);
        let p = sqrt_floor((n - 1) as nat);
        if (p + 1) * (p + 1) <= n {
            assert(sqrt_floor(n) == p + 1);
            assert(n - 1 < (p + 1) * (p + 1));
            assert(n == (p + 1) * (p + 1));
            assert(n < (p + 2) * (p + 2)) by (nonlinear_arith)
                requires
                    n == (p + 1) * (p + 1),
            ;
            assert((sqrt_floor(n) + 1) * (sqrt_floor(n) + 1) == (p + 2) * (p + 2));
            assert(n < (sqrt_floor(n) + 1) * (sqrt_floor(n) + 1));
        } else {
            assert(sqrt_floor(n) == p);
            assert(p * p <= n - 1);
            assert(n < (sqrt_floor(n) + 1) * (sqrt_floor(n) + 1));
        }
    }
}

/// Any `r` with `r^2 <= n < (r+1)^2` equals `sqrt_floor(n)`.
pub proof fn lemma_sqrt_floor_unique(n: nat, r: nat)
    requires
        r * r <= n,
        n < (r + 1) * (r + 1),
    ensures
        r == sqrt_floor(n),
{
    lemma_sqrt_floor_bounds(n);
    let s = sqrt_floor(n);
    assert(r < s + 1 && s < r + 1) by (nonlinear_arith)
        requires
            r * r <= n,
            n < (r + 1) * (r + 1),
            s * s <= n,
            n < (s + 1) * (s + 1),
    ;
}

/// Largest argument accepted by `isqrt`: `2^126`.
pub const ISQRT_DOMAIN: u128 = 0x4000_0000_0000_0000_0000_0000_0000_0000;

/// Floor of the square root, computed by binary search.
pub fn isqrt(n: u128) -> (r: u64)
    requires
        n < ISQRT_DOMAIN,
    ensures
        r == sqrt_floor(n as nat),
        r < 0x8000_0000_0000_0000u64,
{
    let mut lo: u64 = 0;
    let mut hi: u64 = 0x7FFF_FFFF_FFFF_FFFFu64;
    proof {
        assert(ISQRT_DOMAIN == 0x8000_0000_0000_0000u128 * 0x8000_0000_0000_0000u128);
    }
    while lo < hi
        invariant
            lo <= hi,
            hi < 0x8000_0000_0000_0000u64,
            (lo as u128) * (lo as u128) <= n,
            n < (hi as u128 + 1) * (hi as u128 + 1),
        decreases hi - lo,
    {
        let mid: u64 = lo + (hi - lo + 1) / 2;
        proof {
            assert((mid as int) * (mid as int) < 0x4000_0000_0000_0000_0000_0000_0000_0000int)
                by (nonlinear_arith)
                requires
                    0 <= (mid as int) < 0x8000_0000_0000_0000int,
            ;
        }
        if (mid as u128) * (mid as u128) <= n {
            lo = mid;
        } else {
            hi = mid - 1;
        }
    }
    proof {
        lemma_sqrt_floor_unique(n as nat, lo as nat);
    }
    lo
}

/// Fixed-point value of `1/e` in Q.32: the decay factor for one whole unit
/// of the exponent.
pub const INV_E_Q32: u64 = 1580030168;

/// Exponents with integer part at or beyond this cutoff round to probability
/// zero: `e^-24 * 2^32 < 1`.
pub const EXP_CUTOFF: u64 = 24;

/// Number of Taylor terms used for the fractional part of the exponential.
pub const EXP_TERMS: u64 = 12;

/// The `n`-th Taylor magnitude `z^n / n!` in Q.32, with `z` itself in Q.32,
/// each step floored to an integer.
pub open spec fn exp_term(z: nat, n: nat) -> nat
    decreases n,
{
    if n == 0 {
        0x1_0000_0000
    } else {
        exp_term(z, (n - 1) as nat) * z / (n * 0x1_0000_0000)
    }
}

/// Alternating partial Taylor sum for `e^-z` in Q.32, up to term `n`.
pub open spec fn exp_alt_sum(z: nat, n: nat) -> int
    decreases n,
{
    if n == 0 {
        exp_term(z, 0) as int
    } else {
        exp_alt_sum(z, (n - 1) as nat) + if n % 2 == 0 {
            exp_term(z, n) as int
        } else {
            -(exp_term(z, n) as int)
        }
    }
}

/// Clamp an integer into the probability range `[0, 2^32]`.
pub open spec fn clamp_prob(x: int) -> nat {
    if x < 0 {
        0
    } else if x > 0x1_0000_0000 {
        0x1_0000_0000
    } else {
        x as nat
    }
}

/// `e^-f` for a fractional exponent `f` in Q.16, as a Q.32 probability.
pub open spec fn exp_frac_q32(f: nat) -> nat {
    clamp_prob(exp_alt_sum(f * 65536, EXP_TERMS as nat))
}

/// `t * (1/e)^k`, each multiplication floored in Q.32.
pub open spec fn decay_pow(t: nat, k: nat) -> nat
    decreases k,
{
    if k == 0 {
        t
    } else {
        decay_pow(t, (k - 1) as nat) * (INV_E_Q32 as nat) / 0x1_0000_0000
    }
}

/// `e^-x` for `x` in Q.16, as a Q.32 probability: the acceptance threshold
/// of a Metropolis trial with energy penalty `x`.
pub open spec fn exp_q32(x: nat) -> nat {
    let k = x / 65536;
    let f = x % 65536;
    if k >= EXP_CUTOFF {
        0
    } else {
        decay_pow(exp_frac_q32(f), k)
    }
}

pub proof fn lemma_exp_term_le(z: nat, n: nat)
    requires
        z < 0x1_0000_0000,
    ensures
        exp_term(z, n) <= 0x1_0000_0000,
    decreases n,
{
    if n > 0 {
        lemma_exp_term_le(z, (n - 1) as nat);
        let p = exp_term(z, (n - 1) as nat);
        assert(p * z / (n * 0x1_0000_0000) <= 0x1_0000_0000) by (nonlinear_arith)
            requires
                p <= 0x1_0000_0000,
                z < 0x1_0000_0000,
                n >= 1,
        ;
    }
}

pub proof fn lemma_clamp_prob_le(x: int)
    ensures
        clamp_prob(x) <= 0x1_0000_0000,
{
}

pub proof fn lemma_decay_pow_le(t: nat, k: nat)
    ensures
        decay_pow(t, k) <= t,
    decreases k,
{
    if k > 0 {
        lemma_decay_pow_le(t, (k - 1) as nat);
        let p = decay_pow(t, (k - 1) as nat);
        assert(p * (INV_E_Q32 as nat) / 0x1_0000_0000 <= p) by (nonlinear_arith)
            requires
                INV_E_Q32 < 0x1_0000_0000,
        ;
    }
}

/// The acceptance threshold never exceeds certainty.
pub proof fn lemma_exp_q32_le_one(x: nat)
    ensures
        exp_q32(x) <= 0x1_0000_0000,
{
    if x / 65536 < EXP_CUTOFF {
        lemma_clamp_prob_le(exp_alt_sum((x % 65536) * 65536, EXP_TERMS as nat));
        lemma_decay_pow_le(exp_frac_q32(x % 65536), x / 65536);
    }
}

pub proof fn lemma_exp_term_zero(n: nat)
    ensures
        exp_term(0, n) == if n == 0 {
            0x1_0000_0000nat
        } else {
            0nat
        },
    decreases n,
{
    if n > 0 {
        lemma_exp_term_zero((n - 1) as nat);
        assert(exp_term(0, (n - 1) as nat) * 0 == 0) by (nonlinear_arith);
    }
}

pub proof fn lemma_exp_alt_sum_zero(n: nat)
    ensures
        exp_alt_sum(0, n) == 0x1_0000_0000,
    decreases n,
{
    lemma_exp_term_zero(n);
    if n > 0 {
        lemma_exp_alt_sum_zero((n - 1) as nat);
    }
}

/// A zero exponent gives the full acceptance probability: `e^0 == 1`.
pub proof fn lemma_exp_q32_zero()
    ensures
        exp_q32(0) == 0x1_0000_0000,
{
    lemma_exp_alt_sum_zero(EXP_TERMS as nat);
    assert(0nat * 65536 == 0) by (nonlinear_arith);
}

/// Beyond the cutoff the acceptance probability is exactly zero.
pub proof fn lemma_exp_q32_frozen(x: nat)
    requires
        x >= EXP_CUTOFF * 65536,
    ensures
        exp_q32(x) == 0,
{
    assert(x / 65536 >= EXP_CUTOFF) by (nonlinear_arith)
        requires
            x >= EXP_CUTOFF * 65536,
    ;
}

/// Multiply two Q.32 values, flooring the result back to Q.32.
fn mul_q32(a: u64, b: u64) -> (r: u64)
    requires
        a <= 0x1_0000_0000,
        b <= 0x1_0000_0000,
    ensures
        r == (a as nat) * (b as nat) / 0x1_0000_0000,
        r <= 0x1_0000_0000,
{
    proof {
        assert((a as int) * (b as int) <= 0x1_0000_0000_0000_0000int) by (nonlinear_arith)
            requires
                0 <= a <= 0x1_0000_0000,
                0 <= b <= 0x1_0000_0000,
        ;
        assert((a as nat) * (b as nat) / 0x1_0000_0000 <= 0x1_0000_0000) by (nonlinear_arith)
            requires
                a <= 0x1_0000_0000,
                b <= 0x1_0000_0000,
        ;
    }
    let p: u128 = (a as u128) * (b as u128);
    (p / 0x1_0000_0000u128) as u64
}

/// `e^-f` for a fractional Q.16 exponent, by an alternating Taylor sum.
fn exp_frac(f: u64) -> (r: u64)
    requires
        f < 65536,
    ensures
        r == exp_frac_q32(f as nat),
        r <= 0x1_0000_0000,
{
    let z: u64 = f * 65536;
    let mut term: u64 = 0x1_0000_0000;
    let mut acc: i128 = 0x1_0000_0000;
    let mut n: u64 = 1;
    proof {
        lemma_exp_term_le(z as nat, 0);
    }
    while n <= EXP_TERMS
        invariant
            1 <= n <= EXP_TERMS + 1,
            z == f * 65536,
            z < 0x1_0000_0000,
            term == exp_term(z as nat, (n - 1) as nat),
            term <= 0x1_0000_0000,
            acc == exp_alt_sum(z as nat, (n - 1) as nat),
            -(0x1_0000_0000i128 * (n as i128 - 1)) <= acc <= 0x1_0000_0000i128 * (n as i128),
        decreases EXP_TERMS + 1 - n,
    {
        let denom: u128 = (n as u128) * 0x1_0000_0000u128;
        proof {
            assert((term as int) * (z as int) <= 0x1_0000_0000_0000_0000int) by (nonlinear_arith)
                requires
                    0 <= term <= 0x1_0000_0000,
                    0 <= z <= 0x1_0000_0000,
            ;
            assert((term as nat) * (z as nat) / ((n as nat) * 0x1_0000_0000) <= 0x1_0000_0000)
                by (nonlinear_arith)
                requires
                    term <= 0x1_0000_0000,
                    z < 0x1_0000_0000,
                    n >= 1,
            ;
        }
        let next: u128 = (term as u128) * (z as u128) / denom;
        term = next as u64;
        proof {
            assert(term == exp_term(z as nat, n as nat));
        }
        if n % 2 == 1 {
            acc = acc - term as i128;
        } else {
            acc = acc + term as i128;
        }
        proof {
            assert(acc == exp_alt_sum(z as nat, n as nat));
        }
        n = n + 1;
    }
    if acc < 0 {
        0
    } else if acc > 0x1_0000_0000i128 {
        0x1_0000_0000
    } else {
        acc as u64
    }
}

/// `e^-x` for `x` in Q.16, as a Q.32 probability.
pub fn exp_prob(x: u64) -> (r: u64)
    ensures
        r == exp_q32(x as nat),
        r <= 0x1_0000_0000,
{
    let k = x / 65536;
    let f = x % 65536;
    if k >= EXP_CUTOFF {
        return 0;
    }
    let mut t = exp_frac(f);
    let mut i: u64 = 0;
    while i < k
        invariant
            i <= k,
            t == decay_pow(exp_frac_q32(f as nat), i as nat),
            t <= 0x1_0000_0000,
        decreases k - i,
    {
        t = mul_q32(t, INV_E_Q32);
        i = i + 1;
    }
    t
}

} // verus!
