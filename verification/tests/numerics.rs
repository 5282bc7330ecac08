//! Exact-value tests for the fixed-point numerics: integer square root,
//! the Metropolis acceptance exponential, and the quarter-wave trig.

use lattice_mc::fixed::{exp_prob, isqrt, EXP_CUTOFF, INV_E_Q32};
use lattice_mc::orbit::{init_phases, phase_trig, QUARTER_TURN};

#[test]
fn isqrt_exact_small_values() {
    assert_eq!(isqrt(0), 0);
    assert_eq!(isqrt(1), 1);
    assert_eq!(isqrt(3), 1);
    assert_eq!(isqrt(4), 2);
    assert_eq!(isqrt(15), 3);
    assert_eq!(isqrt(16), 4);
    assert_eq!(isqrt(17), 4);
    assert_eq!(isqrt(999_999), 999);
    assert_eq!(isqrt(1_000_000), 1000);
}

#[test]
fn isqrt_exact_large_values() {
    let big: u128 = (1u128 << 60) - 1;
    let r = isqrt(big * big);
    assert_eq!(r as u128, big);
    let r2 = isqrt(big * big + 2 * big);
    assert_eq!(r2 as u128, big);
    let r3 = isqrt(big * big + 2 * big + 1);
    assert_eq!(r3 as u128, big + 1);
}

#[test]
fn exp_prob_certainty_at_zero() {
    // e^0 == 1: the full Q.32 probability, so every acceptance draw in
    // [0, 2^32) falls below it.
    assert_eq!(exp_prob(0), 0x1_0000_0000);
}

#[test]
fn exp_prob_zero_beyond_cutoff() {
    assert_eq!(exp_prob(EXP_CUTOFF * 65536), 0);
    assert_eq!(exp_prob(EXP_CUTOFF * 65536 + 1), 0);
    assert_eq!(exp_prob(u64::MAX), 0);
}

#[test]
fn exp_prob_one_unit_is_inverse_e() {
    // e^-1 in Q.32, within a few counts of truncation of the constant.
    let r = exp_prob(65536);
    let diff = if r > INV_E_Q32 { r - INV_E_Q32 } else { INV_E_Q32 - r };
    assert!(diff < 1024, "exp_prob(1.0) = {r}, expected near {INV_E_Q32}");
}

#[test]
fn exp_prob_is_monotone_on_samples() {
    let mut prev = exp_prob(0);
    for k in 1..200u64 {
        let cur = exp_prob(k * 16384);
        assert!(cur <= prev, "acceptance threshold rose at {k}");
        prev = cur;
    }
}

#[test]
fn trig_exact_at_quadrant_boundaries() {
    let one = 0x1_0000_0000i64;
    assert_eq!(phase_trig(0), (0, one));
    assert_eq!(phase_trig(QUARTER_TURN), (one, 0));
    assert_eq!(phase_trig(2 * QUARTER_TURN), (0, -one));
    assert_eq!(phase_trig(3 * QUARTER_TURN), (-one, 0));
}

#[test]
fn trig_near_known_values() {
    // sin and cos of an eighth of a turn are both close to sqrt(1/2).
    let eighth = QUARTER_TURN / 2;
    let (s, c) = phase_trig(eighth);
    let root_half = 3_037_000_500i64;
    assert!((s - root_half).abs() < 2_000_000, "sin(pi/4) = {s}");
    assert!((c - root_half).abs() < 2_000_000, "cos(pi/4) = {c}");
}

#[test]
fn trig_stays_on_unit_interval() {
    for k in 0..256u32 {
        let tau = k.wrapping_mul(16_777_216);
        let (s, c) = phase_trig(tau);
        assert!(-0x1_0000_0000i64 <= s && s <= 0x1_0000_0000i64);
        assert!(-0x1_0000_0000i64 <= c && c <= 0x1_0000_0000i64);
    }
}

#[test]
fn phases_spread_evenly() {
    let ph = init_phases(4);
    assert_eq!(ph, vec![0, 0x4000_0000, 0x8000_0000, 0xC000_0000]);
    let ph3 = init_phases(3);
    assert_eq!(ph3.len(), 3);
    assert_eq!(ph3[1] as u64, 0x1_0000_0000u64 / 3);
    assert_eq!(ph3[2] as u64, 0x1_0000_0000u64 / 3 * 2);
}
