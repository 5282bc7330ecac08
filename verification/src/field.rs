//! The spatially varying inverse-temperature field: every cell's beta is a
//! linear interpolation between a "hot" value at a heat source and a "cold"
//! value at or beyond the influence radius, driven by the cell's distance
//! to the nearest hotspot.

use vstd::prelude::*;

use crate::COORD_MAX_FP;
use crate::Hotspot;
use crate::fixed::isqrt;
use crate::fixed::sqrt_floor;
use crate::lattice::BETA_MAX_FP;
use crate::lattice::MAX_DIM;
use crate::lattice::lat_idx;

verus! {

/// Largest accepted cell pitch in Q.16 fixed point.
pub const PITCH_MAX_FP: i64 = 0x400_0000;

/// Largest accepted influence radius in Q.16 fixed point.
pub const RADIUS_MAX_FP: u64 = 0x400_0000_0000;

/// The mapping from grid indices to plane coordinates: cell `(i, j)` sits
/// at `(x0 + i * w_x, y0 + j * w_y)`, all in Q.16 fixed point.
pub struct GridGeom {
    pub w_x: i64,
    pub w_y: i64,
    pub x0: i64,
    pub y0: i64,
}

impl GridGeom {
    /// Positive cell pitches and an origin within the plane bounds.
    pub open spec fn wf(&self) -> bool {
        &&& 0 < self.w_x <= PITCH_MAX_FP
        &&& 0 < self.w_y <= PITCH_MAX_FP
        &&& -COORD_MAX_FP <= self.x0 <= COORD_MAX_FP
        &&& -COORD_MAX_FP <= self.y0 <= COORD_MAX_FP
    }

    /// Decide the structural invariant at run time.
    pub fn is_wf(&self) -> (b: bool)
        ensures
            b == self.wf(),
    {
        0 < self.w_x && self.w_x <= PITCH_MAX_FP && 0 < self.w_y && self.w_y <= PITCH_MAX_FP
            && -COORD_MAX_FP <= self.x0 && self.x0 <= COORD_MAX_FP && -COORD_MAX_FP <= self.y0
            && self.y0 <= COORD_MAX_FP
    }

    /// Plane x-coordinate of column `i`.
    pub open spec fn cell_x(&self, i: int) -> int {
        self.x0 + i * self.w_x
    }

    /// Plane y-coordinate of row `j`.
    pub open spec fn cell_y(&self, j: int) -> int {
        self.y0 + j * self.w_y
    }
}

/// The floored Euclidean distance from `(x, y)` to a hotspot.
pub open spec fn dist_fp(h: Hotspot, x: int, y: int) -> nat {
    sqrt_floor(((h.x - x) * (h.x - x) + (h.y - y) * (h.y - y)) as nat)
}

/// The minimum distance from `(x, y)` to any hotspot, clamped to `cap`:
/// with no hotspot in range (or none at all) the distance saturates at the
/// influence radius.
pub open spec fn min_dist_fp(hs: Seq<Hotspot>, x: int, y: int, cap: u64) -> nat
    decreases hs.len(),
{
    if hs.len() == 0 {
        cap as nat
    } else {
        let rest = min_dist_fp(hs.drop_last(), x, y, cap);
        let d = dist_fp(hs.last(), x, y);
        if d < rest {
            d
        } else {
            rest
        }
    }
}

/// Linear interpolation between `lo` (at distance 0) and `hi` (at distance
/// `cap`), floored to an integer.
pub open spec fn lerp_beta(lo: u64, hi: u64, r: nat, cap: u64) -> nat {
    (lo * (cap - r) + hi * r) as nat / (cap as nat)
}

/// The beta of the cell at plane position `(x, y)`.
pub open spec fn spec_pos_beta(hs: Seq<Hotspot>, x: int, y: int, lo: u64, hi: u64, cap: u64) -> nat {
    lerp_beta(lo, hi, min_dist_fp(hs, x, y, cap), cap)
}

/// The whole field, flat row-major, as a function of the hotspot set, the
/// geometry, the two endpoint betas, and the influence radius.
pub open spec fn spec_field(
    hs: Seq<Hotspot>,
    g: GridGeom,
    n_x: int,
    n_y: int,
    lo: u64,
    hi: u64,
    cap: u64,
) -> Seq<u64> {
    Seq::new(
        (n_x * n_y) as nat,
        |m: int| spec_pos_beta(hs, g.cell_x(m / n_y), g.cell_y(m % n_y), lo, hi, cap) as u64,
    )
}

/// The interpolated beta never leaves the band spanned by its endpoints:
/// the field cannot overshoot `[lo, hi]` (in either order) however the
/// distances fall.
pub proof fn lemma_lerp_bounds(lo: u64, hi: u64, r: nat, cap: u64)
    requires
        cap >= 1,
        r <= cap,
    ensures
        lerp_beta(lo, hi, r, cap) >= if lo <= hi {
            lo as nat
        } else {
            hi as nat
        },
        lerp_beta(lo, hi, r, cap) <= if lo <= hi {
            hi as nat
        } else {
            lo as nat
        },
{
    let lub = if lo <= hi {
        hi as int
    } else {
        lo as int
    };
    let glb = if lo <= hi {
        lo as int
    } else {
        hi as int
    };
    let num = lo * (cap - r) + hi * r;
    assert(glb * cap <= num <= lub * cap) by (nonlinear_arith)
        requires
            0 <= r <= cap,
            glb <= lo <= lub,
            glb <= hi <= lub,
            num == lo * (cap - r) + hi * r,
    ;
    assert(glb <= num / (cap as int) <= lub) by (nonlinear_arith)
        requires
            cap >= 1,
            0 <= glb,
            glb * cap <= num <= lub * cap,
    ;
}

/// The minimum distance from a plane position to the hotspot set, clamped
/// to the influence radius `cap`.
pub fn min_distance(hs: &Vec<Hotspot>, x: i64, y: i64, cap: u64) -> (r: u64)
    requires
        forall|p: int| 0 <= p < hs@.len() ==> hs@[p].wf(),
        -0x400_0000_0000 <= x <= 0x400_0000_0000,
        -0x400_0000_0000 <= y <= 0x400_0000_0000,
    ensures
        r == min_dist_fp(hs@, x as int, y as int, cap),
        r <= cap,
{
    let mut r: u64 = cap;
    let mut p: usize = 0;
    proof {
        assert(hs@.subrange(0, 0) =~= Seq::<Hotspot>::empty());
    }
    while p < hs.len()
        invariant
            0 <= p <= hs@.len(),
            forall|q: int| 0 <= q < hs@.len() ==> hs@[q].wf(),
            -0x400_0000_0000 <= x <= 0x400_0000_0000,
            -0x400_0000_0000 <= y <= 0x400_0000_0000,
            r == min_dist_fp(hs@.subrange(0, p as int), x as int, y as int, cap),
            r <= cap,
        decreases hs@.len() - p,
    {
        let h = &hs[p];
        let dx: i64 = h.x - x;
        let dy: i64 = h.y - y;
        let ax: u64 = if dx >= 0 {
            dx as u64
        } else {
            (-dx) as u64
        };
        let ay: u64 = if dy >= 0 {
            dy as u64
        } else {
            (-dy) as u64
        };
        proof {
            assert((ax as int) * (ax as int) + (ay as int) * (ay as int)
                < 0x4000_0000_0000_0000_0000_0000_0000_0000int
                && (ax as int) * (ax as int) == (dx as int) * (dx as int)
                && (ay as int) * (ay as int) == (dy as int) * (dy as int)) by (nonlinear_arith)
                requires
                    0 <= ax <= 0x500_0000_0000,
                    0 <= ay <= 0x500_0000_0000,
                    ax == if dx >= 0 {
                        dx as int
                    } else {
                        -(dx as int)
                    },
                    ay == if dy >= 0 {
                        dy as int
                    } else {
                        -(dy as int)
                    },
            ;
        }
        let d: u64 = isqrt((ax as u128) * (ax as u128) + (ay as u128) * (ay as u128));
        proof {
            assert(d == dist_fp(hs@[p as int], x as int, y as int));
            assert(hs@.subrange(0, p + 1).drop_last() =~= hs@.subrange(0, p as int));
            assert(hs@.subrange(0, p + 1).last() == hs@[p as int]);
        }
        if d < r {
            r = d;
        }
        p = p + 1;
    }
    proof {
        assert(hs@.subrange(0, hs@.len() as int) =~= hs@);
    }
    r
}

/// The interpolated beta at one plane position.
pub fn pos_beta(hs: &Vec<Hotspot>, x: i64, y: i64, lo: u64, hi: u64, cap: u64) -> (b: u64)
    requires
        forall|p: int| 0 <= p < hs@.len() ==> hs@[p].wf(),
        -0x400_0000_0000 <= x <= 0x400_0000_0000,
        -0x400_0000_0000 <= y <= 0x400_0000_0000,
        lo <= BETA_MAX_FP,
        hi <= BETA_MAX_FP,
        1 <= cap <= RADIUS_MAX_FP,
    ensures
        b == spec_pos_beta(hs@, x as int, y as int, lo, hi, cap),
        lo <= hi ==> lo <= b <= hi,
        hi <= lo ==> hi <= b <= lo,
        b <= BETA_MAX_FP,
{
    let r = min_distance(hs, x, y, cap);
    proof {
        lemma_lerp_bounds(lo, hi, r as nat, cap);
        assert((lo as int) * ((cap - r) as int) + (hi as int) * (r as int)
            <= 0x400_0000_0000_0000_0000_0000int) by (nonlinear_arith)
            requires
                0 <= r <= cap,
                cap <= 0x400_0000_0000,
                lo <= 0x100_0000_0000,
                hi <= 0x100_0000_0000,
        ;
    }
    let num: u128 = (lo as u128) * ((cap - r) as u128) + (hi as u128) * (r as u128);
    (num / (cap as u128)) as u64
}

/// Recompute the whole beta field from the current hotspot set: cell by
/// cell, the minimum hotspot distance (clamped to the influence radius) is
/// interpolated between `lo` at a source and `hi` at or beyond the radius.
pub fn compute_field(
    hs: &Vec<Hotspot>,
    g: &GridGeom,
    n_x: usize,
    n_y: usize,
    lo: u64,
    hi: u64,
    cap: u64,
) -> (betas: Vec<u64>)
    requires
        forall|p: int| 0 <= p < hs@.len() ==> hs@[p].wf(),
        g.wf(),
        1 <= n_x <= MAX_DIM,
        1 <= n_y <= MAX_DIM,
        lo <= BETA_MAX_FP,
        hi <= BETA_MAX_FP,
        1 <= cap <= RADIUS_MAX_FP,
    ensures
        betas@ == spec_field(hs@, *g, n_x as int, n_y as int, lo, hi, cap),
        betas@.len() == n_x * n_y,
        forall|m: int| 0 <= m < betas@.len() ==> #[trigger] betas@[m] <= BETA_MAX_FP,
{
    proof {
        assert(n_x * n_y <= 0x4000_0000) by (nonlinear_arith)
            requires
                1 <= n_x <= 32768,
                1 <= n_y <= 32768,
        ;
    }
    let mut betas: Vec<u64> = Vec::new();
    let mut i: usize = 0;
    while i < n_x
        invariant
            0 <= i <= n_x,
            forall|p: int| 0 <= p < hs@.len() ==> hs@[p].wf(),
            g.wf(),
            1 <= n_x <= MAX_DIM,
            1 <= n_y <= MAX_DIM,
            lo <= BETA_MAX_FP,
            hi <= BETA_MAX_FP,
            1 <= cap <= RADIUS_MAX_FP,
            n_x * n_y <= 0x4000_0000,
            betas@.len() == i * n_y,
            forall|m: int|
                0 <= m < betas@.len() ==> #[trigger] betas@[m] == spec_pos_beta(
                    hs@,
                    g.cell_x(m / (n_y as int)),
                    g.cell_y(m % (n_y as int)),
                    lo,
                    hi,
                    cap,
                ) && betas@[m] <= BETA_MAX_FP,
        decreases n_x - i,
    {
        let mut j: usize = 0;
        proof {
            assert((i as int) * (n_y as int) + (n_y as int) <= n_x * n_y && (i as int) * (n_y
                as int) >= 0) by (nonlinear_arith)
                requires
                    0 <= i < n_x,
                    1 <= n_y,
            ;
        }
        while j < n_y
            invariant
                0 <= i < n_x,
                0 <= j <= n_y,
                forall|p: int| 0 <= p < hs@.len() ==> hs@[p].wf(),
                g.wf(),
                1 <= n_x <= MAX_DIM,
                1 <= n_y <= MAX_DIM,
                lo <= BETA_MAX_FP,
                hi <= BETA_MAX_FP,
                1 <= cap <= RADIUS_MAX_FP,
                n_x * n_y <= 0x4000_0000,
                i * n_y + n_y <= n_x * n_y,
                betas@.len() == i * n_y + j,
                forall|m: int|
                    0 <= m < betas@.len() ==> #[trigger] betas@[m] == spec_pos_beta(
                        hs@,
                        g.cell_x(m / (n_y as int)),
                        g.cell_y(m % (n_y as int)),
                        lo,
                        hi,
                        cap,
                    ) && betas@[m] <= BETA_MAX_FP,
            decreases n_y - j,
        {
            proof {
                assert(0 <= (i as int) * (g.w_x as int) <= 0x200_0000_0000int)
                    by (nonlinear_arith)
                    requires
                        0 <= i <= 32768,
                        0 < g.w_x <= 0x400_0000,
                ;
                assert(0 <= (j as int) * (g.w_y as int) <= 0x200_0000_0000int)
                    by (nonlinear_arith)
                    requires
                        0 <= j <= 32768,
                        0 < g.w_y <= 0x400_0000,
                ;
            }
            let x: i64 = g.x0 + (i as i64) * g.w_x;
            let y: i64 = g.y0 + (j as i64) * g.w_y;
            let b = pos_beta(hs, x, y, lo, hi, cap);
            betas.push(b);
            proof {
                vstd::arithmetic::div_mod::lemma_fundamental_div_mod_converse(
                    (i as int) * (n_y as int) + (j as int),
                    n_y as int,
                    i as int,
                    j as int,
                );
            }
            j = j + 1;
        }
        i = i + 1;
        proof {
            assert((i as int) * (n_y as int) == ((i - 1) as int) * (n_y as int) + (n_y as int))
                by (nonlinear_arith);
        }
    }
    proof {
        assert(betas@ =~= spec_field(hs@, *g, n_x as int, n_y as int, lo, hi, cap));
    }
    betas
}

} // verus!
