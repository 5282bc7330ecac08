//! The uniform oscillating inverse-temperature schedule: a scalar beta
//! walks back and forth across a configured band `[lo, hi]` in fixed steps,
//! reflecting whenever it has crossed a bound (a triangle wave).

use vstd::prelude::*;

verus! {

/// Largest accepted schedule bound in Q.16: half of the lattice's beta
/// ceiling, so that one step of overshoot can never leave the ceiling.
pub const BETA_SCHED_MAX: i64 = 0x80_0000_0000;

/// The oscillating schedule: current value, signed step, and the band.
/// All values are inverse temperatures in Q.16 fixed point.
pub struct BetaSchedule {
    pub beta: i64,
    pub delta: i64,
    pub lo: i64,
    pub hi: i64,
}

impl BetaSchedule {
    /// Magnitude of the step.
    pub open spec fn mag(&self) -> int {
        if self.delta >= 0 {
            self.delta as int
        } else {
            -(self.delta as int)
        }
    }

    /// The structural invariant: a non-negative band within bounds, a step
    /// no larger than the band's floor (so beta can never go negative), a
    /// value at most one step outside the band, and an excursion beyond a
    /// bound only ever in the direction of the current step.
    pub open spec fn wf(&self) -> bool {
        &&& 0 <= self.lo <= self.hi <= BETA_SCHED_MAX
        &&& self.mag() <= self.lo
        &&& self.lo - self.mag() <= self.beta <= self.hi + self.mag()
        &&& (self.beta > self.hi ==> self.delta > 0)
        &&& (self.beta < self.lo ==> self.delta < 0)
    }

    /// The step the next advance will take: reflected when the value has
    /// left the band, unchanged inside it.
    pub open spec fn next_delta(&self) -> int {
        if self.beta > self.hi || self.beta < self.lo {
            -(self.delta as int)
        } else {
            self.delta as int
        }
    }

    /// The value after the next advance.
    pub open spec fn next_beta(&self) -> int {
        self.beta + self.next_delta()
    }

    /// Decide the structural invariant at run time.
    pub fn is_wf(&self) -> (b: bool)
        ensures
            b == self.wf(),
    {
        if !(0 <= self.lo && self.lo <= self.hi && self.hi <= BETA_SCHED_MAX) {
            return false;
        }
        let mag: i64 = if self.delta >= 0 {
            self.delta
        } else {
            if self.delta < -self.lo {
                return false;
            }
            -self.delta
        };
        if mag > self.lo {
            return false;
        }
        if !(self.lo - mag <= self.beta && self.beta <= self.hi + mag) {
            return false;
        }
        if self.beta > self.hi && !(self.delta > 0) {
            return false;
        }
        if self.beta < self.lo && !(self.delta < 0) {
            return false;
        }
        true
    }

    /// Advance the schedule by one step: reflect the step if the value has
    /// crossed a bound, then add the step.
    pub fn advance(&mut self)
        requires
            old(self).wf(),
        ensures
            final(self).wf(),
            final(self).lo == old(self).lo,
            final(self).hi == old(self).hi,
            final(self).delta == old(self).next_delta(),
            final(self).beta == old(self).next_beta(),
            final(self).mag() == old(self).mag(),
            *final(self) == sched_next(*old(self)),
    {
        if self.beta > self.hi || self.beta < self.lo {
            self.delta = -self.delta;
        }
        self.beta = self.beta + self.delta;
    }

    /// The current value as an unsigned Q.16 beta for the update engine.
    pub fn current(&self) -> (b: u64)
        requires
            self.wf(),
        ensures
            b == self.beta,
            b <= 0x100_0000_0000,
    {
        self.beta as u64
    }
}

/// The schedule state after one advance.
pub open spec fn sched_next(s: BetaSchedule) -> BetaSchedule {
    BetaSchedule { beta: s.next_beta() as i64, delta: s.next_delta() as i64, lo: s.lo, hi: s.hi }
}

/// The oscillation law: the scheduled beta never leaves the band by more
/// than one step, neither now nor after an advance; inside the band the
/// step is kept, and exactly at an excursion past a bound the step reverses
/// and strictly pulls the value back toward the band.
pub proof fn lemma_schedule_oscillation(s: BetaSchedule)
    requires
        s.wf(),
    ensures
        s.lo - s.mag() <= s.beta <= s.hi + s.mag(),
        s.lo - s.mag() <= s.next_beta() <= s.hi + s.mag(),
        s.lo <= s.beta <= s.hi ==> s.next_delta() == s.delta,
        s.beta > s.hi ==> s.next_delta() == -(s.delta as int) && s.next_beta() < s.beta,
        s.beta < s.lo ==> s.next_delta() == -(s.delta as int) && s.next_beta() > s.beta,
        0 <= s.next_beta(),
{
}

} // verus!
