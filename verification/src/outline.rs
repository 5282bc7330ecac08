//! Outline-tracing heat sources: an externally supplied shape arrives as an
//! ordered list of path segments, and each segment is resampled into points
//! spaced at a fixed target arc length `dr`, so that long segments carry
//! enough hotspots to leave no gaps in their influence.

use vstd::prelude::*;

use crate::COORD_MAX_FP;
use crate::Hotspot;
use crate::fixed::isqrt;
use crate::fixed::sqrt_floor;

verus! {

/// Largest number of hotspots a resampled outline may produce.
pub const MAX_HOTSPOTS: usize = 0x10_0000;

/// A straight path segment from `(x0, y0)` to `(x1, y1)`, in Q.16
/// fixed-point plane coordinates.
pub struct Segment {
    pub x0: i64,
    pub y0: i64,
    pub x1: i64,
    pub y1: i64,
}

impl Segment {
    /// Coordinates within the accepted plane bounds.
    pub open spec fn wf(&self) -> bool {
        &&& -COORD_MAX_FP <= self.x0 <= COORD_MAX_FP
        &&& -COORD_MAX_FP <= self.y0 <= COORD_MAX_FP
        &&& -COORD_MAX_FP <= self.x1 <= COORD_MAX_FP
        &&& -COORD_MAX_FP <= self.y1 <= COORD_MAX_FP
    }
}

/// Absolute value.
pub open spec fn iabs(x: int) -> nat {
    if x >= 0 {
        x as nat
    } else {
        (-x) as nat
    }
}

/// The Q.16 length of a segment: the floored Euclidean norm of its delta.
pub open spec fn seg_len_fp(s: Segment) -> nat {
    sqrt_floor(((s.x1 - s.x0) * (s.x1 - s.x0) + (s.y1 - s.y0) * (s.y1 - s.y0)) as nat)
}

/// How many evenly spaced leading samples a segment yields at spacing `dr`:
/// the floor of its length over the spacing.
pub open spec fn seg_n_points(s: Segment, dr: u64) -> nat {
    seg_len_fp(s) / (dr as nat)
}

/// One coordinate step between consecutive samples: the delta divided by
/// the sample count, rounded toward zero.
pub open spec fn sample_step(d: int, n: nat) -> int {
    if d >= 0 {
        d / (n as int)
    } else {
        -((-d) / (n as int))
    }
}

/// The resampled points of one segment: `floor(len/dr)` evenly spaced
/// samples walking from the start point, followed by the exact endpoint. A
/// zero-length segment yields only its single point.
pub open spec fn seg_points(s: Segment, dr: u64) -> Seq<Hotspot> {
    let n = seg_n_points(s, dr);
    let sx = sample_step(s.x1 - s.x0, n);
    let sy = sample_step(s.y1 - s.y0, n);
    Seq::new(n, |q: int| Hotspot { x: (s.x0 + q * sx) as i64, y: (s.y0 + q * sy) as i64 })
        + seq![Hotspot { x: s.x1, y: s.y1 }]
}

/// The resampling law: a segment of length `L` yields exactly
/// `floor(L/dr)` leading samples plus the exact endpoint, and a zero-length
/// segment yields only its single point.
pub proof fn lemma_resample_count(s: Segment, dr: u64)
    requires
        dr >= 1,
    ensures
        seg_points(s, dr).len() == seg_n_points(s, dr) + 1,
        seg_points(s, dr).last() == (Hotspot { x: s.x1, y: s.y1 }),
        seg_len_fp(s) < dr ==> seg_points(s, dr) =~= seq![Hotspot { x: s.x1, y: s.y1 }],
        s.x0 == s.x1 && s.y0 == s.y1 ==> seg_len_fp(s) == 0,
{
    assert(seg_n_points(s, dr) == seg_len_fp(s) / (dr as nat));
    if s.x0 == s.x1 && s.y0 == s.y1 {
        assert((s.x1 - s.x0) * (s.x1 - s.x0) + (s.y1 - s.y0) * (s.y1 - s.y0) == 0)
            by (nonlinear_arith)
            requires
                s.x1 - s.x0 == 0,
                s.y1 - s.y0 == 0,
        ;
        assert(sqrt_floor(0) == 0);
    }
    if seg_len_fp(s) < dr {
        assert(seg_len_fp(s) / (dr as nat) == 0) by (nonlinear_arith)
            requires
                dr >= 1,
                seg_len_fp(s) < dr,
        ;
    }
}

/// Bound on the walked offset: `q` steps of the sample step stay between
/// zero and the full delta.
proof fn lemma_step_walk_bound(d: int, n: nat, q: int)
    requires
        n >= 1,
        0 <= q <= n,
    ensures
        d >= 0 ==> 0 <= q * sample_step(d, n) <= d,
        d < 0 ==> d <= q * sample_step(d, n) <= 0,
{
    let m = iabs(d);
    assert(0 <= q * ((m as int) / (n as int)) <= m) by (nonlinear_arith)
        requires
            n >= 1,
            0 <= q <= n,
            m >= 0,
    ;
    if d >= 0 {
        assert(q * sample_step(d, n) == q * ((m as int) / (n as int)));
    } else {
        assert(sample_step(d, n) == -((m as int) / (n as int)));
        assert(q * sample_step(d, n) == -(q * ((m as int) / (n as int)))) by (nonlinear_arith)
            requires
                sample_step(d, n) == -((m as int) / (n as int)),
        ;
    }
}

/// Every resampled point of a well-formed segment lies between the
/// segment's endpoints, so it is itself within the plane bounds.
pub proof fn lemma_seg_points_wf(s: Segment, dr: u64)
    requires
        s.wf(),
        dr >= 1,
    ensures
        forall|p: int| 0 <= p < seg_points(s, dr).len() ==> (#[trigger] seg_points(s, dr)[p]).wf(),
{
    let n = seg_n_points(s, dr);
    let sx = sample_step(s.x1 - s.x0, n);
    let sy = sample_step(s.y1 - s.y0, n);
    assert forall|p: int| 0 <= p < seg_points(s, dr).len() implies (#[trigger] seg_points(
        s,
        dr,
    )[p]).wf() by {
        if p < n {
            lemma_step_walk_bound(s.x1 - s.x0, n, p);
            lemma_step_walk_bound(s.y1 - s.y0, n, p);
            assert(p * sx == (p as int) * sx && p * sy == (p as int) * sy);
            assert(-COORD_MAX_FP <= s.x0 + p * sx <= COORD_MAX_FP);
            assert(-COORD_MAX_FP <= s.y0 + p * sy <= COORD_MAX_FP);
        }
    }
}

/// Every point of a resampled outline of well-formed segments is within
/// the plane bounds.
pub proof fn lemma_outline_points_wf(segs: Seq<Segment>, dr: u64)
    requires
        dr >= 1,
        forall|p: int| 0 <= p < segs.len() ==> segs[p].wf(),
    ensures
        forall|p: int|
            0 <= p < outline_points(segs, dr).len() ==> (#[trigger] outline_points(
                segs,
                dr,
            )[p]).wf(),
    decreases segs.len(),
{
    if segs.len() > 0 {
        lemma_outline_points_wf(segs.drop_last(), dr);
        lemma_seg_points_wf(segs.last(), dr);
        let rest = outline_points(segs.drop_last(), dr);
        let tail = seg_points(segs.last(), dr);
        assert forall|p: int| 0 <= p < outline_points(segs, dr).len() implies (
        #[trigger] outline_points(segs, dr)[p]).wf() by {
            if p < rest.len() {
                assert(outline_points(segs, dr)[p] == rest[p]);
            } else {
                assert(outline_points(segs, dr)[p] == tail[p - rest.len()]);
            }
        }
    }
}

/// Append the resampled points of one segment to `out`.
pub fn resample_segment(seg: &Segment, dr: u64, out: &mut Vec<Hotspot>)
    requires
        seg.wf(),
        dr >= 1,
        old(out)@.len() + seg_n_points(*seg, dr) + 1 <= MAX_HOTSPOTS,
    ensures
        final(out)@ == old(out)@ + seg_points(*seg, dr),
{
    let dx: i64 = seg.x1 - seg.x0;
    let dy: i64 = seg.y1 - seg.y0;
    let ax: u64 = if dx >= 0 {
        dx as u64
    } else {
        (-dx) as u64
    };
    let ay: u64 = if dy >= 0 {
        dy as u64
    } else {
        (-dy) as u64
    };
    proof {
        assert((ax as int) * (ax as int) + (ay as int) * (ay as int)
            < 0x4000_0000_0000_0000_0000_0000_0000_0000int
            && (ax as int) * (ax as int) == (dx as int) * (dx as int)
            && (ay as int) * (ay as int) == (dy as int) * (dy as int)) by (nonlinear_arith)
            requires
                0 <= ax <= 0x200_0000_0000,
                0 <= ay <= 0x200_0000_0000,
                ax == iabs(dx as int),
                ay == iabs(dy as int),
        ;
    }
    let len: u64 = isqrt((ax as u128) * (ax as u128) + (ay as u128) * (ay as u128));
    let n: u64 = len / dr;
    proof {
        assert(len == seg_len_fp(*seg));
        assert(n == seg_n_points(*seg, dr));
    }
    if n > 0 {
        let sx: i64 = if dx >= 0 {
            (ax / n) as i64
        } else {
            -((ax / n) as i64)
        };
        let sy: i64 = if dy >= 0 {
            (ay / n) as i64
        } else {
            -((ay / n) as i64)
        };
        proof {
            assert(ax / n <= ax && ay / n <= ay) by (nonlinear_arith)
                requires
                    n >= 1,
            ;
            assert(sx == sample_step(dx as int, n as nat));
            assert(sy == sample_step(dy as int, n as nat));
        }
        let mut x: i64 = seg.x0;
        let mut y: i64 = seg.y0;
        let mut q: u64 = 0;
        while q < n
            invariant
                0 <= q <= n,
                n >= 1,
                seg.wf(),
                dr >= 1,
                n == seg_n_points(*seg, dr),
                sx == sample_step(seg.x1 - seg.x0, n as nat),
                sy == sample_step(seg.y1 - seg.y0, n as nat),
                x == seg.x0 + q * sx,
                y == seg.y0 + q * sy,
                seg.x1 - seg.x0 >= 0 ==> 0 <= q * sx <= seg.x1 - seg.x0,
                seg.x1 - seg.x0 < 0 ==> seg.x1 - seg.x0 <= q * sx <= 0,
                seg.y1 - seg.y0 >= 0 ==> 0 <= q * sy <= seg.y1 - seg.y0,
                seg.y1 - seg.y0 < 0 ==> seg.y1 - seg.y0 <= q * sy <= 0,
                out@.len() == old(out)@.len() + q,
                old(out)@.len() + n + 1 <= MAX_HOTSPOTS,
                forall|p: int| 0 <= p < old(out)@.len() ==> out@[p] == old(out)@[p],
                forall|p: int|
                    old(out)@.len() <= p < old(out)@.len() + q ==> #[trigger] out@[p] == (Hotspot {
                        x: (seg.x0 + (p - old(out)@.len()) * sx) as i64,
                        y: (seg.y0 + (p - old(out)@.len()) * sy) as i64,
                    }),
            decreases n - q,
        {
            out.push(Hotspot { x, y });
            proof {
                lemma_step_walk_bound(seg.x1 - seg.x0, n as nat, q + 1);
                lemma_step_walk_bound(seg.y1 - seg.y0, n as nat, q + 1);
                assert((q + 1) * sx == q * sx + sx && (q + 1) * sy == q * sy + sy)
                    by (nonlinear_arith);
            }
            x = x + sx;
            y = y + sy;
            q = q + 1;
        }
    }
    out.push(Hotspot { x: seg.x1, y: seg.y1 });
    proof {
        assert(final(out)@ =~= old(out)@ + seg_points(*seg, dr));
    }
}

/// The resampled points of a whole outline: the concatenation of each
/// segment's points, in order.
pub open spec fn outline_points(segs: Seq<Segment>, dr: u64) -> Seq<Hotspot>
    decreases segs.len(),
{
    if segs.len() == 0 {
        Seq::empty()
    } else {
        outline_points(segs.drop_last(), dr) + seg_points(segs.last(), dr)
    }
}

/// Resample a whole outline into a fresh hotspot set. Returns `None`
/// exactly when the outline would produce more than `MAX_HOTSPOTS` points;
/// otherwise the returned set holds every segment's points, in order.
pub fn resample_outline(segs: &Vec<Segment>, dr: u64) -> (r: Option<Vec<Hotspot>>)
    requires
        dr >= 1,
        forall|p: int| 0 <= p < segs@.len() ==> segs@[p].wf(),
    ensures
        r is Some <==> outline_points(segs@, dr).len() <= MAX_HOTSPOTS,
        r is Some ==> r.unwrap()@ == outline_points(segs@, dr),
{
    let mut out: Vec<Hotspot> = Vec::new();
    let mut s: usize = 0;
    proof {
        assert(outline_points(segs@.subrange(0, 0), dr) =~= Seq::<Hotspot>::empty());
    }
    while s < segs.len()
        invariant
            0 <= s <= segs@.len(),
            dr >= 1,
            forall|p: int| 0 <= p < segs@.len() ==> segs@[p].wf(),
            out@ == outline_points(segs@.subrange(0, s as int), dr),
            out@.len() <= MAX_HOTSPOTS,
        decreases segs@.len() - s,
    {
        let seg = &segs[s];
        let n = seg_sample_count(seg, dr);
        if n >= MAX_HOTSPOTS as u64 || out.len() + (n as usize) + 1 > MAX_HOTSPOTS {
            proof {
                lemma_outline_points_grow(segs@, dr, s as int);
            }
            return None;
        }
        resample_segment(seg, dr, &mut out);
        proof {
            assert(segs@.subrange(0, s + 1).drop_last() =~= segs@.subrange(0, s as int));
            assert(segs@.subrange(0, s + 1).last() == segs@[s as int]);
        }
        s = s + 1;
    }
    proof {
        assert(segs@.subrange(0, segs@.len() as int) =~= segs@);
    }
    Some(out)
}

/// The number of leading samples a segment yields at spacing `dr`.
pub fn seg_sample_count(seg: &Segment, dr: u64) -> (n: u64)
    requires
        seg.wf(),
        dr >= 1,
    ensures
        n == seg_n_points(*seg, dr),
{
    let dx: i64 = seg.x1 - seg.x0;
    let dy: i64 = seg.y1 - seg.y0;
    let ax: u64 = if dx >= 0 {
        dx as u64
    } else {
        (-dx) as u64
    };
    let ay: u64 = if dy >= 0 {
        dy as u64
    } else {
        (-dy) as u64
    };
    proof {
        assert((ax as int) * (ax as int) + (ay as int) * (ay as int)
            < 0x4000_0000_0000_0000_0000_0000_0000_0000int
            && (ax as int) * (ax as int) == (dx as int) * (dx as int)
            && (ay as int) * (ay as int) == (dy as int) * (dy as int)) by (nonlinear_arith)
            requires
                0 <= ax <= 0x200_0000_0000,
                0 <= ay <= 0x200_0000_0000,
                ax == iabs(dx as int),
                ay == iabs(dy as int),
        ;
    }
    let len: u64 = isqrt((ax as u128) * (ax as u128) + (ay as u128) * (ay as u128));
    len / dr
}

/// A longer prefix of an outline never yields fewer points.
proof fn lemma_outline_points_grow(segs: Seq<Segment>, dr: u64, s: int)
    requires
        0 <= s < segs.len(),
        dr >= 1,
    ensures
        outline_points(segs, dr).len() >= outline_points(segs.subrange(0, s), dr).len()
            + seg_points(segs[s], dr).len(),
    decreases segs.len() - s,
{
    if s == segs.len() - 1 {
        assert(segs.subrange(0, s) =~= segs.drop_last());
        assert(segs.last() == segs[s]);
    } else {
        lemma_outline_points_grow(segs.drop_last(), dr, s);
        assert(segs.drop_last().subrange(0, s) =~= segs.subrange(0, s));
        assert(segs.drop_last()[s] == segs[s]);
    }
}

} // verus!
