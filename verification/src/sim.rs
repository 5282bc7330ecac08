//! The simulation aggregate: lattice, temperature controller, heat-source
//! motion and random stream in one owned state, advanced one full step at a
//! time (motion, then temperature, then one Metropolis sweep).
//!
//! Every step is pinned to a mathematical transition function of the
//! state's abstract view, so that two simulations with equal views (same
//! seed, same configuration, same progress) follow bit-identical
//! trajectories.

use vstd::prelude::*;

use crate::Hotspot;
use crate::field::GridGeom;
use crate::field::RADIUS_MAX_FP;
use crate::field::compute_field;
use crate::field::spec_field;
use crate::lattice::BETA_MAX_FP;
use crate::lattice::BetaField;
use crate::lattice::BETA_FREEZE_FP;
use crate::lattice::BetaSpec;
use crate::lattice::Lattice;
use crate::lattice::MAX_DIM;
use crate::lattice::beta_at;
use crate::lattice::beta_wf;
use crate::lattice::lat_idx;
use crate::lattice::lemma_lat_idx_bounds;
use crate::lattice::lemma_sweep_frozen;
use crate::lattice::spec_fill_random;
use crate::lattice::spec_sweep;
use crate::lattice::sweep;
use crate::orbit::OrbitConfig;
use crate::orbit::advance_phases;
use crate::orbit::orbit_pos;
use crate::orbit::orbit_positions;
use crate::orbit::phase_step;
use crate::outline::MAX_HOTSPOTS;
use crate::outline::Segment;
use crate::outline::lemma_outline_points_wf;
use crate::outline::outline_points;
use crate::outline::resample_outline;
use crate::rng::SimRng;
use crate::schedule::BetaSchedule;
use crate::schedule::sched_next;

verus! {

/// One endpoint of the spatial interpolation band: either held fixed or
/// driven by its own oscillating schedule.
pub enum BetaDrive {
    Fixed(u64),
    Oscillating(BetaSchedule),
}

impl BetaDrive {
    pub open spec fn wf(&self) -> bool {
        match self {
            BetaDrive::Fixed(b) => *b <= BETA_MAX_FP,
            BetaDrive::Oscillating(s) => s.wf(),
        }
    }

    /// The beta value currently in force.
    pub open spec fn spec_value(&self) -> u64 {
        match self {
            BetaDrive::Fixed(b) => *b,
            BetaDrive::Oscillating(s) => s.beta as u64,
        }
    }

    /// The drive after one step.
    pub open spec fn spec_next(&self) -> BetaDrive {
        match self {
            BetaDrive::Fixed(b) => BetaDrive::Fixed(*b),
            BetaDrive::Oscillating(s) => BetaDrive::Oscillating(sched_next(*s)),
        }
    }

    /// Read the value currently in force.
    pub fn value(&self) -> (b: u64)
        requires
            self.wf(),
        ensures
            b == self.spec_value(),
            b <= BETA_MAX_FP,
    {
        match self {
            BetaDrive::Fixed(b) => *b,
            BetaDrive::Oscillating(s) => s.current(),
        }
    }

    /// Advance the drive by one step (a fixed drive stays put).
    pub fn advance(&mut self)
        requires
            old(self).wf(),
        ensures
            *final(self) == old(self).spec_next(),
            final(self).wf(),
    {
        match self {
            BetaDrive::Fixed(_) => {
            },
            BetaDrive::Oscillating(s) => {
                s.advance();
            },
        }
    }
}

/// The temperature controller: one oscillating scalar for the whole grid,
/// or a spatially varying field interpolated between two driven endpoints
/// within an influence radius around the heat sources.
pub enum TempMode {
    Uniform(BetaSchedule),
    Spatial { low: BetaDrive, high: BetaDrive, max_r: u64 },
}

impl TempMode {
    pub open spec fn wf(&self) -> bool {
        match self {
            TempMode::Uniform(s) => s.wf(),
            TempMode::Spatial { low, high, max_r } => low.wf() && high.wf() && 1 <= *max_r
                <= RADIUS_MAX_FP,
        }
    }
}

/// The heat-source motion controller: no sources, sources orbiting the
/// grid, or sources traced from externally supplied outlines (replaced
/// wholesale through `set_outline`).
pub enum Motion {
    Stationary,
    Orbital { cfg: OrbitConfig, phases: Vec<u32> },
    Outline { dr: u64 },
}

/// The mathematical shape of the motion state.
#[verifier::ext_equal]
pub enum MotionSpec {
    Stationary,
    Orbital { cfg: OrbitConfig, phases: Seq<u32> },
    Outline { dr: u64 },
}

impl View for Motion {
    type V = MotionSpec;

    open spec fn view(&self) -> MotionSpec {
        match self {
            Motion::Stationary => MotionSpec::Stationary,
            Motion::Orbital { cfg, phases } => MotionSpec::Orbital { cfg: *cfg, phases: phases@ },
            Motion::Outline { dr } => MotionSpec::Outline { dr: *dr },
        }
    }
}

impl Motion {
    pub open spec fn wf(&self) -> bool {
        match self {
            Motion::Stationary => true,
            Motion::Orbital { cfg, phases } => cfg.wf() && phases@.len() <= MAX_HOTSPOTS,
            Motion::Outline { dr } => *dr >= 1,
        }
    }
}

/// The whole simulation state, owned as one aggregate.
pub struct Simulation {
    pub lattice: Lattice,
    pub geom: GridGeom,
    pub temp: TempMode,
    pub beta_field: BetaField,
    pub motion: Motion,
    pub hotspots: Vec<Hotspot>,
    pub rng: SimRng,
    pub steps_done: u64,
}

/// The mathematical view of a simulation state: everything that determines
/// its future trajectory.
#[verifier::ext_equal]
pub struct SimView {
    pub cells: Seq<u8>,
    pub n_x: int,
    pub n_y: int,
    pub n_states: u8,
    pub geom: GridGeom,
    pub temp: TempMode,
    pub beta: BetaSpec,
    pub motion: MotionSpec,
    pub hotspots: Seq<Hotspot>,
    pub seed: u64,
    pub drawn: nat,
    pub steps: u64,
}

impl View for Simulation {
    type V = SimView;

    open spec fn view(&self) -> SimView {
        SimView {
            cells: self.lattice.cells@,
            n_x: self.lattice.n_x as int,
            n_y: self.lattice.n_y as int,
            n_states: self.lattice.n_states,
            geom: self.geom,
            temp: self.temp,
            beta: self.beta_field@,
            motion: self.motion@,
            hotspots: self.hotspots@,
            seed: self.rng.seed(),
            drawn: self.rng.drawn(),
            steps: self.steps_done,
        }
    }
}

impl Simulation {
    /// The structural invariant of the whole aggregate.
    pub open spec fn wf(&self) -> bool {
        &&& self.lattice.wf()
        &&& self.geom.wf()
        &&& self.temp.wf()
        &&& self.motion.wf()
        &&& beta_wf(self.beta_field@, self.lattice.n_cells())
        &&& self.hotspots@.len() <= MAX_HOTSPOTS
        &&& forall|p: int| 0 <= p < self.hotspots@.len() ==> (#[trigger] self.hotspots@[p]).wf()
    }
}

/// Motion state and hotspot set after one step: orbiting phases advance
/// and positions are recomputed; stationary and outline-traced sources
/// stay put.
pub open spec fn step_motion(m: MotionSpec, hs: Seq<Hotspot>) -> (MotionSpec, Seq<Hotspot>) {
    match m {
        MotionSpec::Stationary => (m, hs),
        MotionSpec::Orbital { cfg, phases } => {
            let ph2 = Seq::new(phases.len(), |p: int| phase_step(phases[p], cfg.turn_delta));
            (
                MotionSpec::Orbital { cfg, phases: ph2 },
                Seq::new(ph2.len(), |p: int| orbit_pos(cfg, ph2[p])),
            )
        },
        MotionSpec::Outline { .. } => (m, hs),
    }
}

/// Temperature controller state and beta field after one step, given the
/// already-advanced hotspot set.
pub open spec fn step_temp(
    t: TempMode,
    g: GridGeom,
    n_x: int,
    n_y: int,
    hs: Seq<Hotspot>,
) -> (TempMode, BetaSpec) {
    match t {
        TempMode::Uniform(s) => (
            TempMode::Uniform(sched_next(s)),
            BetaSpec::Uniform(sched_next(s).beta as u64),
        ),
        TempMode::Spatial { low, high, max_r } => {
            let low2 = low.spec_next();
            let high2 = high.spec_next();
            (
                TempMode::Spatial { low: low2, high: high2, max_r },
                BetaSpec::PerCell(
                    spec_field(hs, g, n_x, n_y, low2.spec_value(), high2.spec_value(), max_r),
                ),
            )
        },
    }
}

/// One full simulation step on the abstract view: heat sources advance,
/// the beta field is recomputed, and one Metropolis sweep runs over the
/// lattice, consuming four random draws per trial.
pub open spec fn spec_step(v: SimView) -> SimView {
    let mh = step_motion(v.motion, v.hotspots);
    let tb = step_temp(v.temp, v.geom, v.n_x, v.n_y, mh.1);
    let n_cells = (v.n_x * v.n_y) as nat;
    SimView {
        cells: spec_sweep(v.cells, v.n_x, v.n_y, v.n_states, tb.1, v.seed, v.drawn, n_cells),
        temp: tb.0,
        beta: tb.1,
        motion: mh.0,
        hotspots: mh.1,
        drawn: v.drawn + 4 * n_cells,
        steps: (v.steps + 1) as u64,
        ..v
    }
}

/// The view after `n` full steps.
pub open spec fn spec_run(v: SimView, n: nat) -> SimView
    decreases n,
{
    if n == 0 {
        v
    } else {
        spec_step(spec_run(v, (n - 1) as nat))
    }
}

/// The determinism law: the whole trajectory is a function of the starting
/// view alone. Two simulations with the same seed and configuration (equal
/// views) produce bit-identical views after any number of steps, because
/// `step` pins its result to `spec_step` of its input view.
pub proof fn lemma_trajectory_deterministic(a: SimView, b: SimView, n: nat)
    requires
        a == b,
    ensures
        spec_run(a, n) == spec_run(b, n),
{
}

/// How the lattice is filled at initialization.
pub enum InitFill {
    Constant(u8),
    Random,
}

/// What a caller asks for at initialization.
pub struct SimConfig {
    pub n_x: usize,
    pub n_y: usize,
    pub n_states: u8,
    pub seed: u64,
    pub geom: GridGeom,
    pub temp: TempMode,
    pub motion: Motion,
    pub init_fill: InitFill,
}

/// Why a configuration was rejected.
#[derive(Clone, Copy, Debug, PartialEq, Eq, Structural)]
pub enum ConfigError {
    BadDimensions,
    BadStateCount,
    BadGeometry,
    BadTemperature,
    BadMotion,
    BadFill,
}

impl SimConfig {
    pub open spec fn dims_ok(&self) -> bool {
        1 <= self.n_x <= MAX_DIM && 1 <= self.n_y <= MAX_DIM
    }

    pub open spec fn states_ok(&self) -> bool {
        self.n_states >= 1
    }

    pub open spec fn fill_ok(&self) -> bool {
        match self.init_fill {
            InitFill::Constant(v) => v < self.n_states,
            InitFill::Random => true,
        }
    }

    /// A configuration the simulator accepts.
    pub open spec fn ok(&self) -> bool {
        self.dims_ok() && self.states_ok() && self.geom.wf() && self.temp.wf() && self.motion.wf()
            && self.fill_ok()
    }

    pub open spec fn n_cells(&self) -> nat {
        (self.n_x * self.n_y) as nat
    }
}

/// The initial cell contents: a constant fill, or one range-reduced random
/// draw per cell starting at the head of the stream.
pub open spec fn init_cells(cfg: SimConfig) -> Seq<u8> {
    match cfg.init_fill {
        InitFill::Constant(v) => Seq::new(cfg.n_cells(), |m: int| v),
        InitFill::Random => spec_fill_random(cfg.n_cells(), cfg.n_states, cfg.seed, 0),
    }
}

/// How many random draws initialization consumes.
pub open spec fn init_drawn(cfg: SimConfig) -> nat {
    match cfg.init_fill {
        InitFill::Constant(_) => 0,
        InitFill::Random => cfg.n_cells(),
    }
}

/// The initial hotspot set: orbiting sources start at their configured
/// phases; the other modes start with none.
pub open spec fn init_hotspots(cfg: SimConfig) -> Seq<Hotspot> {
    match cfg.motion@ {
        MotionSpec::Orbital { cfg: ocfg, phases } => Seq::new(
            phases.len(),
            |p: int| orbit_pos(ocfg, phases[p]),
        ),
        _ => Seq::empty(),
    }
}

/// The initial beta field, from the configured temperature mode and the
/// initial hotspot set.
pub open spec fn init_beta(cfg: SimConfig, hs: Seq<Hotspot>) -> BetaSpec {
    match cfg.temp {
        TempMode::Uniform(s) => BetaSpec::Uniform(s.beta as u64),
        TempMode::Spatial { low, high, max_r } => BetaSpec::PerCell(
            spec_field(
                hs,
                cfg.geom,
                cfg.n_x as int,
                cfg.n_y as int,
                low.spec_value(),
                high.spec_value(),
                max_r,
            ),
        ),
    }
}

/// The state a valid configuration initializes to.
pub open spec fn spec_init(cfg: SimConfig) -> SimView {
    SimView {
        cells: init_cells(cfg),
        n_x: cfg.n_x as int,
        n_y: cfg.n_y as int,
        n_states: cfg.n_states,
        geom: cfg.geom,
        temp: cfg.temp,
        beta: init_beta(cfg, init_hotspots(cfg)),
        motion: cfg.motion@,
        hotspots: init_hotspots(cfg),
        seed: cfg.seed,
        drawn: init_drawn(cfg),
        steps: 0,
    }
}

impl BetaDrive {
    /// Decide the structural invariant at run time.
    pub fn is_wf(&self) -> (b: bool)
        ensures
            b == self.wf(),
    {
        match self {
            BetaDrive::Fixed(v) => *v <= BETA_MAX_FP,
            BetaDrive::Oscillating(s) => s.is_wf(),
        }
    }
}

impl TempMode {
    /// Decide the structural invariant at run time.
    pub fn is_wf(&self) -> (b: bool)
        ensures
            b == self.wf(),
    {
        match self {
            TempMode::Uniform(s) => s.is_wf(),
            TempMode::Spatial { low, high, max_r } => low.is_wf() && high.is_wf() && 1 <= *max_r
                && *max_r <= RADIUS_MAX_FP,
        }
    }
}

impl Motion {
    /// Decide the structural invariant at run time.
    pub fn is_wf(&self) -> (b: bool)
        ensures
            b == self.wf(),
    {
        match self {
            Motion::Stationary => true,
            Motion::Orbital { cfg, phases } => cfg.is_wf() && phases.len() <= MAX_HOTSPOTS,
            Motion::Outline { dr } => *dr >= 1,
        }
    }
}

impl Simulation {
    /// Validate a configuration and build the initial simulation state:
    /// the filled lattice, the initial hotspot set and beta field, and the
    /// seeded random stream. Each precondition of the data model is
    /// checked, and the first violation found is reported.
    pub fn new(cfg: SimConfig) -> (r: Result<Simulation, ConfigError>)
        ensures
            r is Ok <==> cfg.ok(),
            !cfg.dims_ok() ==> r == Result::<Simulation, ConfigError>::Err(
                ConfigError::BadDimensions,
            ),
            cfg.dims_ok() && !cfg.states_ok() ==> r == Result::<Simulation, ConfigError>::Err(
                ConfigError::BadStateCount,
            ),
            cfg.dims_ok() && cfg.states_ok() && !cfg.geom.wf() ==> r == Result::<
                Simulation,
                ConfigError,
            >::Err(ConfigError::BadGeometry),
            cfg.dims_ok() && cfg.states_ok() && cfg.geom.wf() && !cfg.temp.wf() ==> r == Result::<
                Simulation,
                ConfigError,
            >::Err(ConfigError::BadTemperature),
            cfg.dims_ok() && cfg.states_ok() && cfg.geom.wf() && cfg.temp.wf() && !cfg.motion.wf()
                ==> r == Result::<Simulation, ConfigError>::Err(ConfigError::BadMotion),
            cfg.dims_ok() && cfg.states_ok() && cfg.geom.wf() && cfg.temp.wf() && cfg.motion.wf()
                && !cfg.fill_ok() ==> r == Result::<Simulation, ConfigError>::Err(
                ConfigError::BadFill,
            ),
            r is Ok ==> r.unwrap().wf() && r.unwrap()@ == spec_init(cfg),
    {
        if !(1 <= cfg.n_x && cfg.n_x <= MAX_DIM && 1 <= cfg.n_y && cfg.n_y <= MAX_DIM) {
            return Err(ConfigError::BadDimensions);
        }
        if !(cfg.n_states >= 1) {
            return Err(ConfigError::BadStateCount);
        }
        if !cfg.geom.is_wf() {
            return Err(ConfigError::BadGeometry);
        }
        if !cfg.temp.is_wf() {
            return Err(ConfigError::BadTemperature);
        }
        if !cfg.motion.is_wf() {
            return Err(ConfigError::BadMotion);
        }
        let fill_ok = match cfg.init_fill {
            InitFill::Constant(v) => v < cfg.n_states,
            InitFill::Random => true,
        };
        if !fill_ok {
            return Err(ConfigError::BadFill);
        }
        let mut rng = SimRng::new_seeded(cfg.seed);
        let lattice = match cfg.init_fill {
            InitFill::Constant(v) => Lattice::new_constant(cfg.n_x, cfg.n_y, cfg.n_states, v),
            InitFill::Random => Lattice::new_random(cfg.n_x, cfg.n_y, cfg.n_states, &mut rng),
        };
        let hotspots = match &cfg.motion {
            Motion::Orbital { cfg: ocfg, phases } => orbit_positions(ocfg, phases),
            _ => Vec::new(),
        };
        proof {
            assert(hotspots@ =~= init_hotspots(cfg));
        }
        let beta_field = match &cfg.temp {
            TempMode::Uniform(s) => BetaField::Uniform(s.current()),
            TempMode::Spatial { low, high, max_r } => BetaField::PerCell(
                compute_field(
                    &hotspots,
                    &cfg.geom,
                    cfg.n_x,
                    cfg.n_y,
                    low.value(),
                    high.value(),
                    *max_r,
                ),
            ),
        };
        let sim = Simulation {
            lattice,
            geom: cfg.geom,
            temp: cfg.temp,
            beta_field,
            motion: cfg.motion,
            hotspots,
            rng,
            steps_done: 0,
        };
        proof {
            assert(sim@ =~= spec_init(cfg));
        }
        Ok(sim)
    }
}

/// The frozen fixed point at whole-step granularity: under a uniform
/// schedule whose value stays at or above the freezing beta, a fully
/// ordered lattice survives an entire simulation step unchanged — as beta
/// grows, steps converge to zero accepted state changes. The degenerate
/// 1-by-1 grid is excluded.
pub proof fn lemma_step_frozen_uniform(v: SimView, s: BetaSchedule, val: u8)
    requires
        v.temp == TempMode::Uniform(s),
        s.wf(),
        sched_next(s).beta >= BETA_FREEZE_FP,
        1 <= v.n_x <= MAX_DIM,
        1 <= v.n_y <= MAX_DIM,
        v.n_x >= 2 || v.n_y >= 2,
        v.n_states >= 1,
        v.cells.len() == v.n_x * v.n_y,
        forall|m: int| 0 <= m < v.cells.len() ==> v.cells[m] == val,
    ensures
        spec_step(v).cells == v.cells,
{
    let tb = step_temp(v.temp, v.geom, v.n_x, v.n_y, step_motion(v.motion, v.hotspots).1);
    assert(tb.1 == BetaSpec::Uniform(sched_next(s).beta as u64));
    assert(sched_next(s).beta as u64 >= BETA_FREEZE_FP);
    lemma_sweep_frozen(
        v.cells,
        v.n_x,
        v.n_y,
        v.n_states,
        tb.1,
        v.seed,
        v.drawn,
        (v.n_x * v.n_y) as nat,
        val,
    );
}

impl Simulation {
    /// Advance the simulation by one full step: heat-source motion, then
    /// the temperature field, then one Metropolis sweep.
    pub fn step(&mut self)
        requires
            old(self).wf(),
            old(self).steps_done < u64::MAX,
        ensures
            final(self).wf(),
            final(self)@ == spec_step(old(self)@),
    {
        match &mut self.motion {
            Motion::Stationary => {
            },
            Motion::Orbital { cfg, phases } => {
                advance_phases(phases, cfg.turn_delta);
                self.hotspots = orbit_positions(cfg, phases);
                proof {
                    assert(phases@ =~= Seq::new(
                        old(self).motion@->Orbital_phases.len(),
                        |p: int|
                            phase_step(
                                old(self).motion@->Orbital_phases[p],
                                old(self).motion@->Orbital_cfg.turn_delta,
                            ),
                    ));
                    assert(self.hotspots@ =~= Seq::new(
                        phases@.len(),
                        |p: int| orbit_pos(*cfg, phases@[p]),
                    ));
                }
            },
            Motion::Outline { .. } => {
            },
        }
        proof {
            let mh = step_motion(old(self)@.motion, old(self)@.hotspots);
            assert(self.motion@ =~= mh.0);
            assert(self.hotspots@ =~= mh.1);
        }
        match &mut self.temp {
            TempMode::Uniform(s) => {
                s.advance();
                let b = s.current();
                self.beta_field = BetaField::Uniform(b);
            },
            TempMode::Spatial { low, high, max_r } => {
                low.advance();
                high.advance();
                let lo = low.value();
                let hi = high.value();
                let betas = compute_field(
                    &self.hotspots,
                    &self.geom,
                    self.lattice.n_x,
                    self.lattice.n_y,
                    lo,
                    hi,
                    *max_r,
                );
                self.beta_field = BetaField::PerCell(betas);
            },
        }
        proof {
            let mh = step_motion(old(self)@.motion, old(self)@.hotspots);
            let tb = step_temp(old(self)@.temp, old(self)@.geom, old(self)@.n_x, old(self)@.n_y, mh.1);
            assert(self.temp =~= tb.0);
            assert(self.beta_field@ =~= tb.1);
        }
        sweep(&mut self.lattice, &self.beta_field, &mut self.rng);
        self.steps_done = self.steps_done + 1;
        proof {
            assert(final(self)@ =~= spec_step(old(self)@));
        }
    }

    /// Read the state of cell `(i, j)`.
    pub fn read_cell(&self, i: usize, j: usize) -> (v: u8)
        requires
            self.wf(),
            i < self.lattice.n_x,
            j < self.lattice.n_y,
        ensures
            v == self@.cells[lat_idx(self@.n_y, i as int, j as int)],
            v < self@.n_states,
    {
        self.lattice.get(i, j)
    }

    /// Read the inverse temperature currently in force at cell `(i, j)`.
    pub fn read_beta(&self, i: usize, j: usize) -> (b: u64)
        requires
            self.wf(),
            i < self.lattice.n_x,
            j < self.lattice.n_y,
        ensures
            b == beta_at(self@.beta, lat_idx(self@.n_y, i as int, j as int)),
            b <= BETA_MAX_FP,
    {
        proof {
            lemma_lat_idx_bounds(
                self.lattice.n_x as int,
                self.lattice.n_y as int,
                i as int,
                j as int,
            );
        }
        self.beta_field.local(i * self.lattice.n_y + j, Ghost(self.lattice.n_cells()))
    }

    /// Hand the outline-tracing controller a new shape: the resampled
    /// points replace the previous hotspot set wholesale, or nothing
    /// changes when the outline would exceed the hotspot capacity.
    pub fn set_outline(&mut self, segs: &Vec<Segment>) -> (ok: bool)
        requires
            old(self).wf(),
            old(self).motion@ matches MotionSpec::Outline { dr },
            forall|p: int| 0 <= p < segs@.len() ==> (#[trigger] segs@[p]).wf(),
        ensures
            final(self).wf(),
            ok <==> outline_points(segs@, old(self)@.motion->Outline_dr).len() <= MAX_HOTSPOTS,
            ok ==> final(self)@ == (SimView {
                hotspots: outline_points(segs@, old(self)@.motion->Outline_dr),
                ..old(self)@
            }),
            !ok ==> final(self)@ == old(self)@,
    {
        let dr: u64 = match &self.motion {
            Motion::Outline { dr } => *dr,
            _ => 1,
        };
        match resample_outline(segs, dr) {
            Some(points) => {
                proof {
                    lemma_outline_points_wf(segs@, dr);
                }
                self.hotspots = points;
                proof {
                    assert(final(self)@ =~= (SimView {
                        hotspots: outline_points(segs@, old(self)@.motion->Outline_dr),
                        ..old(self)@
                    }));
                }
                true
            },
            None => {
                proof {
                    assert(final(self)@ =~= old(self)@);
                }
                false
            },
        }
    }

    /// Which outline frame is in force at a given step count: none during
    /// the equilibration window, then one frame per hold window of
    /// `window` steps.
    pub fn hold_frame(steps_done: u64, equilibration: u64, window: u64) -> (idx: Option<u64>)
        requires
            window >= 1,
        ensures
            steps_done <= equilibration ==> idx is None,
            steps_done > equilibration ==> idx == Some(
                ((steps_done - equilibration) as u64) / window,
            ),
    {
        if steps_done <= equilibration {
            None
        } else {
            Some((steps_done - equilibration) / window)
        }
    }
}

} // verus!
