//! Orbital heat-source motion: a fixed set of sources sits at equal
//! angular spacing on a circle around the grid's centre, and every step
//! each source's phase advances by a fixed fraction of a revolution.
//!
//! Phases are held in "turn" units: a `u32` whose full range is one
//! revolution, so that advancing wraps around exactly. Positions come from
//! a fixed-point quarter-wave Taylor sine and cosine.

use vstd::prelude::*;

use crate::COORD_MAX_FP;
use crate::Hotspot;
use crate::fixed::clamp_prob;

verus! {

/// A quarter turn in phase units: `2^30`.
pub const QUARTER_TURN: u32 = 0x4000_0000;

/// `pi/2` in Q.32 fixed point.
pub const PI_HALF_Q32: u64 = 6746518852;

/// Largest accepted orbit radius in Q.16: half the plane bound, so that
/// centre plus radius stays inside the plane.
pub const ORBIT_RADIUS_MAX_FP: u64 = 0x80_0000_0000;

/// Number of Taylor terms beyond the leading one used for the quarter-wave
/// sine and cosine.
pub const TRIG_TERMS: u64 = 4;

/// The `n`-th sine Taylor magnitude `z^(2n+1) / (2n+1)!` in Q.32, each
/// step floored.
pub open spec fn sin_term(z: nat, n: nat) -> nat
    decreases n,
{
    if n == 0 {
        z
    } else {
        sin_term(z, (n - 1) as nat) * z * z / ((2 * n) * (2 * n + 1) * 0x1_0000_0000_0000_0000)
    }
}

/// Alternating sine Taylor sum up to term `n`.
pub open spec fn sin_sum(z: nat, n: nat) -> int
    decreases n,
{
    if n == 0 {
        sin_term(z, 0) as int
    } else {
        sin_sum(z, (n - 1) as nat) + if n % 2 == 0 {
            sin_term(z, n) as int
        } else {
            -(sin_term(z, n) as int)
        }
    }
}

/// The `n`-th cosine Taylor magnitude `z^(2n) / (2n)!` in Q.32, each step
/// floored.
pub open spec fn cos_term(z: nat, n: nat) -> nat
    decreases n,
{
    if n == 0 {
        0x1_0000_0000
    } else {
        cos_term(z, (n - 1) as nat) * z * z / (((2 * n - 1) as nat) * (2 * n)
            * 0x1_0000_0000_0000_0000)
    }
}

/// Alternating cosine Taylor sum up to term `n`.
pub open spec fn cos_sum(z: nat, n: nat) -> int
    decreases n,
{
    if n == 0 {
        cos_term(z, 0) as int
    } else {
        cos_sum(z, (n - 1) as nat) + if n % 2 == 0 {
            cos_term(z, n) as int
        } else {
            -(cos_term(z, n) as int)
        }
    }
}

/// Sine on the first quadrant, clamped into `[0, 2^32]`.
pub open spec fn quarter_sin(z: nat) -> nat {
    clamp_prob(sin_sum(z, TRIG_TERMS as nat))
}

/// Cosine on the first quadrant, clamped into `[0, 2^32]`.
pub open spec fn quarter_cos(z: nat) -> nat {
    clamp_prob(cos_sum(z, TRIG_TERMS as nat))
}

/// The Q.32 radian angle within the current quadrant of a phase.
pub open spec fn phase_local(tau: u32) -> nat {
    (tau as nat % (QUARTER_TURN as nat)) * (PI_HALF_Q32 as nat) / (QUARTER_TURN as nat)
}

/// Which quadrant (0 to 3) a phase lies in.
pub open spec fn phase_quadrant(tau: u32) -> int {
    tau as int / (QUARTER_TURN as int)
}

/// Fixed-point sine of a whole-turn phase, in `[-2^32, 2^32]`.
pub open spec fn sin_q32(tau: u32) -> int {
    let z = phase_local(tau);
    let q = phase_quadrant(tau);
    if q == 0 {
        quarter_sin(z) as int
    } else if q == 1 {
        quarter_cos(z) as int
    } else if q == 2 {
        -(quarter_sin(z) as int)
    } else {
        -(quarter_cos(z) as int)
    }
}

/// Fixed-point cosine of a whole-turn phase, in `[-2^32, 2^32]`.
pub open spec fn cos_q32(tau: u32) -> int {
    let z = phase_local(tau);
    let q = phase_quadrant(tau);
    if q == 0 {
        quarter_cos(z) as int
    } else if q == 1 {
        -(quarter_sin(z) as int)
    } else if q == 2 {
        -(quarter_cos(z) as int)
    } else {
        quarter_sin(z) as int
    }
}

/// Compute the clamped quarter-wave sine and cosine of the local angle of
/// `tau` by the alternating Taylor sums.
fn quarter_trig(tau: u32) -> (r: (u64, u64))
    ensures
        r.0 == quarter_sin(phase_local(tau)),
        r.1 == quarter_cos(phase_local(tau)),
        r.0 <= 0x1_0000_0000,
        r.1 <= 0x1_0000_0000,
{
    let t: u64 = (tau % QUARTER_TURN) as u64;
    proof {
        assert((t as int) * (PI_HALF_Q32 as int) / (QUARTER_TURN as int) <= PI_HALF_Q32 as int
            && 0 <= (t as int) * (PI_HALF_Q32 as int) < 0x1_0000_0000_0000_0000_0000int)
            by (nonlinear_arith)
            requires
                0 <= t < QUARTER_TURN,
        ;
    }
    let z: u64 = ((t as u128 * PI_HALF_Q32 as u128) / (QUARTER_TURN as u128)) as u64;
    proof {
        assert(z == phase_local(tau));
        assert(z <= 0x2_0000_0000);
    }
    let mut s_term: u64 = z;
    let mut s_acc: i128 = z as i128;
    let mut c_term: u64 = 0x1_0000_0000;
    let mut c_acc: i128 = 0x1_0000_0000;
    let mut n: u64 = 1;
    while n <= TRIG_TERMS
        invariant
            1 <= n <= TRIG_TERMS + 1,
            z <= 0x2_0000_0000,
            s_term == sin_term(z as nat, (n - 1) as nat),
            s_term <= 0x2_0000_0000,
            s_acc == sin_sum(z as nat, (n - 1) as nat),
            -(0x2_0000_0000i128 * (n as i128 - 1)) <= s_acc <= 0x2_0000_0000i128 * (n as i128),
            c_term == cos_term(z as nat, (n - 1) as nat),
            c_term <= 0x2_0000_0000,
            c_acc == cos_sum(z as nat, (n - 1) as nat),
            -(0x2_0000_0000i128 * (n as i128 - 1)) <= c_acc <= 0x2_0000_0000i128 * (n as i128),
        decreases TRIG_TERMS + 1 - n,
    {
        proof {
            assert((2 * (n as int)) * (2 * (n as int) + 1) <= 110 && (2 * (n as int) - 1) * (2 * (
            n as int)) <= 110) by (nonlinear_arith)
                requires
                    1 <= n <= 5,
            ;
        }
        let s_den: u128 = ((2 * n) as u128) * ((2 * n + 1) as u128) * 0x1_0000_0000_0000_0000u128;
        let c_den: u128 = ((2 * n - 1) as u128) * ((2 * n) as u128) * 0x1_0000_0000_0000_0000u128;
        proof {
            let zz = z as int;
            let st = s_term as int;
            let ct = c_term as int;
            let ni = n as int;
            assert(s_den == (2 * ni) * (2 * ni + 1) * 0x1_0000_0000_0000_0000 && c_den == (2 * ni
                - 1) * (2 * ni) * 0x1_0000_0000_0000_0000) by (nonlinear_arith)
                requires
                    1 <= ni <= 5,
                    s_den == ((2 * ni) as u128) * ((2 * ni + 1) as u128)
                        * 0x1_0000_0000_0000_0000u128,
                    c_den == ((2 * ni - 1) as u128) * ((2 * ni) as u128)
                        * 0x1_0000_0000_0000_0000u128,
            ;
            assert((2 * ni) * (2 * ni + 1) * 0x1_0000_0000_0000_0000 >= 1 && (2 * ni - 1) * (2
                * ni) * 0x1_0000_0000_0000_0000 >= 1) by (nonlinear_arith)
                requires
                    ni >= 1,
            ;
            assert(st * zz <= 0x4_0000_0000_0000_0000int && st * zz >= 0 && st * zz * zz
                <= 0x8_0000_0000_0000_0000_0000_0000int && ct * zz
                <= 0x4_0000_0000_0000_0000int && ct * zz >= 0 && ct * zz * zz
                <= 0x8_0000_0000_0000_0000_0000_0000int) by (nonlinear_arith)
                requires
                    0 <= st <= 0x2_0000_0000,
                    0 <= ct <= 0x2_0000_0000,
                    0 <= zz <= 0x2_0000_0000,
            ;
            assert(zz * zz <= (2 * ni) * (2 * ni + 1) * 0x1_0000_0000_0000_0000)
                by (nonlinear_arith)
                requires
                    0 <= zz <= 0x2_0000_0000,
                    ni >= 1,
            ;
            assert(st * zz * zz / ((2 * ni) * (2 * ni + 1) * 0x1_0000_0000_0000_0000) <= st)
                by (nonlinear_arith)
                requires
                    0 <= st,
                    0 <= zz * zz <= (2 * ni) * (2 * ni + 1) * 0x1_0000_0000_0000_0000,
                    ni >= 1,
            ;
            if ni == 1 {
                assert(ct == 0x1_0000_0000);
                assert(ct * zz * zz / ((2 * ni - 1) * (2 * ni) * 0x1_0000_0000_0000_0000)
                    <= 0x2_0000_0000int) by (nonlinear_arith)
                    requires
                        ni == 1,
                        0 <= ct <= 0x1_0000_0000,
                        0 <= zz <= 0x2_0000_0000,
                ;
            } else {
                assert(zz * zz <= (2 * ni - 1) * (2 * ni) * 0x1_0000_0000_0000_0000)
                    by (nonlinear_arith)
                    requires
                        0 <= zz <= 0x2_0000_0000,
                        ni >= 2,
                ;
                assert(ct * zz * zz / ((2 * ni - 1) * (2 * ni) * 0x1_0000_0000_0000_0000) <= ct)
                    by (nonlinear_arith)
                    requires
                        0 <= ct,
                        0 <= zz * zz <= (2 * ni - 1) * (2 * ni) * 0x1_0000_0000_0000_0000,
                        ni >= 2,
                ;
            }
        }
        let s_next: u128 = (s_term as u128) * (z as u128) * (z as u128) / s_den;
        let c_next: u128 = (c_term as u128) * (z as u128) * (z as u128) / c_den;
        s_term = s_next as u64;
        c_term = c_next as u64;
        proof {
            assert(s_term == sin_term(z as nat, n as nat));
            assert(c_term == cos_term(z as nat, n as nat));
        }
        if n % 2 == 1 {
            s_acc = s_acc - s_term as i128;
            c_acc = c_acc - c_term as i128;
        } else {
            s_acc = s_acc + s_term as i128;
            c_acc = c_acc + c_term as i128;
        }
        proof {
            assert(s_acc == sin_sum(z as nat, n as nat));
            assert(c_acc == cos_sum(z as nat, n as nat));
        }
        n = n + 1;
    }
    let s: u64 = if s_acc < 0 {
        0
    } else if s_acc > 0x1_0000_0000i128 {
        0x1_0000_0000
    } else {
        s_acc as u64
    };
    let c: u64 = if c_acc < 0 {
        0
    } else if c_acc > 0x1_0000_0000i128 {
        0x1_0000_0000
    } else {
        c_acc as u64
    };
    (s, c)
}

/// Fixed-point sine and cosine of a whole-turn phase.
pub fn phase_trig(tau: u32) -> (r: (i64, i64))
    ensures
        r.0 == sin_q32(tau),
        r.1 == cos_q32(tau),
        -0x1_0000_0000i64 <= r.0 <= 0x1_0000_0000i64,
        -0x1_0000_0000i64 <= r.1 <= 0x1_0000_0000i64,
{
    let (s, c) = quarter_trig(tau);
    let q: u32 = tau / QUARTER_TURN;
    proof {
        assert(q == phase_quadrant(tau) && q <= 3);
    }
    if q == 0 {
        (s as i64, c as i64)
    } else if q == 1 {
        (c as i64, -(s as i64))
    } else if q == 2 {
        (-(s as i64), -(c as i64))
    } else {
        (-(c as i64), s as i64)
    }
}

/// The circle on which the orbiting heat sources travel, and how far their
/// phase moves each step.
pub struct OrbitConfig {
    pub center_x: i64,
    pub center_y: i64,
    pub radius: u64,
    pub turn_delta: u32,
}

impl OrbitConfig {
    /// Centre and radius that keep every source inside the plane bounds.
    pub open spec fn wf(&self) -> bool {
        &&& -0x80_0000_0000 <= self.center_x <= 0x80_0000_0000
        &&& -0x80_0000_0000 <= self.center_y <= 0x80_0000_0000
        &&& self.radius <= ORBIT_RADIUS_MAX_FP
    }

    /// Decide the structural invariant at run time.
    pub fn is_wf(&self) -> (b: bool)
        ensures
            b == self.wf(),
    {
        -0x80_0000_0000i64 <= self.center_x && self.center_x <= 0x80_0000_0000i64
            && -0x80_0000_0000i64 <= self.center_y && self.center_y <= 0x80_0000_0000i64
            && self.radius <= ORBIT_RADIUS_MAX_FP
    }
}

/// Scale a Q.16 radius by a signed Q.32 amplitude, flooring the magnitude.
pub open spec fn signed_scale(radius: u64, t: int) -> int {
    if t >= 0 {
        (radius * t) / 0x1_0000_0000
    } else {
        -((radius * (-t)) / 0x1_0000_0000)
    }
}

/// The plane position of an orbiting source at phase `tau`.
pub open spec fn orbit_pos(cfg: OrbitConfig, tau: u32) -> Hotspot {
    Hotspot {
        x: (cfg.center_x + signed_scale(cfg.radius, cos_q32(tau))) as i64,
        y: (cfg.center_y + signed_scale(cfg.radius, sin_q32(tau))) as i64,
    }
}

/// Scale a radius by a signed trigonometric amplitude.
fn scale_radius(radius: u64, t: i64) -> (r: i64)
    requires
        radius <= ORBIT_RADIUS_MAX_FP,
        -0x1_0000_0000i64 <= t <= 0x1_0000_0000i64,
    ensures
        r == signed_scale(radius, t as int),
        -(radius as int) <= r <= radius as int,
{
    let m: u64 = if t >= 0 {
        t as u64
    } else {
        (-t) as u64
    };
    proof {
        assert((radius as int) * (m as int) <= 0x80_0000_0000int * 0x1_0000_0000int
            && (radius as int) * (m as int) >= 0 && (radius as int) * (m as int) / 0x1_0000_0000
            <= radius as int) by (nonlinear_arith)
            requires
                0 <= radius <= 0x80_0000_0000,
                0 <= m <= 0x1_0000_0000,
        ;
    }
    let mag: u64 = ((radius as u128) * (m as u128) / 0x1_0000_0000u128) as u64;
    if t >= 0 {
        mag as i64
    } else {
        -(mag as i64)
    }
}

/// The current positions of the orbiting sources, one per phase.
pub fn orbit_positions(cfg: &OrbitConfig, phases: &Vec<u32>) -> (hs: Vec<Hotspot>)
    requires
        cfg.wf(),
    ensures
        hs@.len() == phases@.len(),
        forall|p: int| 0 <= p < hs@.len() ==> hs@[p] == orbit_pos(*cfg, phases@[p]),
        forall|p: int| 0 <= p < hs@.len() ==> (#[trigger] hs@[p]).wf(),
{
    let mut hs: Vec<Hotspot> = Vec::new();
    let mut p: usize = 0;
    while p < phases.len()
        invariant
            0 <= p <= phases@.len(),
            cfg.wf(),
            hs@.len() == p,
            forall|q: int| 0 <= q < p ==> hs@[q] == orbit_pos(*cfg, phases@[q]),
            forall|q: int| 0 <= q < p ==> (#[trigger] hs@[q]).wf(),
        decreases phases@.len() - p,
    {
        let tau = phases[p];
        let (s, c) = phase_trig(tau);
        let x: i64 = cfg.center_x + scale_radius(cfg.radius, c);
        let y: i64 = cfg.center_y + scale_radius(cfg.radius, s);
        hs.push(Hotspot { x, y });
        p = p + 1;
    }
    hs
}

/// A phase advanced by `delta`, wrapping at a full turn.
pub open spec fn phase_step(tau: u32, delta: u32) -> u32 {
    ((tau + delta) % 0x1_0000_0000) as u32
}

/// Advance every phase by the per-step increment, wrapping at a full turn.
pub fn advance_phases(phases: &mut Vec<u32>, delta: u32)
    ensures
        final(phases)@.len() == old(phases)@.len(),
        forall|p: int|
            0 <= p < old(phases)@.len() ==> final(phases)@[p] == phase_step(
                old(phases)@[p],
                delta,
            ),
{
    let mut p: usize = 0;
    while p < phases.len()
        invariant
            0 <= p <= phases@.len(),
            phases@.len() == old(phases)@.len(),
            forall|q: int| p <= q < phases@.len() ==> phases@[q] == old(phases)@[q],
            forall|q: int| 0 <= q < p ==> phases@[q] == phase_step(old(phases)@[q], delta),
        decreases phases@.len() - p,
    {
        let v = phases[p].wrapping_add(delta);
        phases.set(p, v);
        p = p + 1;
    }
}

/// Phases at equal angular spacing around the circle: source `k` of `n`
/// starts at `k * floor(full_turn / n)`.
pub fn init_phases(n: usize) -> (phases: Vec<u32>)
    requires
        1 <= n <= 0x10_0000,
    ensures
        phases@.len() == n,
        forall|k: int|
            0 <= k < n ==> #[trigger] phases@[k] == (k * ((0x1_0000_0000u64 / (n as u64)) as int))
                as u32,
{
    let step: u64 = 0x1_0000_0000u64 / (n as u64);
    let mut phases: Vec<u32> = Vec::new();
    let mut k: usize = 0;
    while k < n
        invariant
            0 <= k <= n,
            1 <= n <= 0x10_0000,
            step == 0x1_0000_0000u64 / (n as u64),
            phases@.len() == k,
            forall|q: int| 0 <= q < k ==> #[trigger] phases@[q] == (q * (step as int)) as u32,
        decreases n - k,
    {
        proof {
            assert(0 <= (k as int) * (step as int) < 0x1_0000_0000int) by (nonlinear_arith)
                requires
                    0 <= k < n,
                    n >= 1,
                    step == 0x1_0000_0000int / (n as int),
            ;
        }
        phases.push(((k as u64) * step) as u32);
        k = k + 1;
    }
    phases
}

} // verus!
