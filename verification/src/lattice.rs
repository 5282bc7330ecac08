//! The toroidal lattice of cell states, the nearest-neighbour energy model,
//! and the Metropolis update engine: one trial proposes a new state for one
//! randomly drawn cell, and one sweep performs `n_x * n_y` such trials.

use vstd::prelude::*;

use crate::fixed::exp_prob;
use crate::fixed::exp_q32;
use crate::rng::SimRng;
use crate::rng::pcg64_stream;
use crate::rng::stream_below;
use crate::rng::stream_frac;

verus! {

/// Largest accepted grid dimension along either axis.
pub const MAX_DIM: usize = 32768;

/// Largest accepted inverse temperature in Q.16 fixed point.
pub const BETA_MAX_FP: u64 = 0x100_0000_0000;

/// The contents of a lattice filled from the random stream: cell `m` (in
/// flat row-major order) holds the `m`-th range-reduced draw.
pub open spec fn spec_fill_random(n_cells: nat, n_states: u8, seed: u64, k0: nat) -> Seq<u8> {
    Seq::new(n_cells, |m: int| stream_below(seed, (k0 + m) as nat, n_states as u64) as u8)
}

/// Row-major index of cell `(i, j)` in a grid with `n_y` columns.
pub open spec fn lat_idx(n_y: int, i: int, j: int) -> int {
    i * n_y + j
}

pub proof fn lemma_lat_idx_bounds(n_x: int, n_y: int, i: int, j: int)
    requires
        0 <= i < n_x,
        0 <= j < n_y,
        n_x <= MAX_DIM,
        n_y <= MAX_DIM,
    ensures
        0 <= lat_idx(n_y, i, j) < n_x * n_y,
        i * n_y + j < n_x * n_y,
        i * n_y + j < 0x4000_0000,
{
    assert(0 <= i * n_y + j < n_x * n_y && i * n_y + j < 0x4000_0000) by (nonlinear_arith)
        requires
            0 <= i < n_x,
            0 <= j < n_y,
            n_x <= 32768,
            n_y <= 32768,
    ;
}

/// 1 if the two states match, else 0.
pub open spec fn state_match(a: u8, b: u8) -> int {
    if a == b {
        1
    } else {
        0
    }
}

/// The local interaction energy of cell `(i, j)`: with `k` of its four
/// periodic orthogonal neighbours sharing its state, the energy is `4 - 2k`,
/// so full local agreement gives `-4` and full disagreement `+4`.
pub open spec fn spec_energy(cells: Seq<u8>, n_x: int, n_y: int, i: int, j: int) -> int {
    let c = cells[lat_idx(n_y, i, j)];
    let w = cells[lat_idx(n_y, (i + n_x - 1) % n_x, j)];
    let e = cells[lat_idx(n_y, (i + 1) % n_x, j)];
    let s = cells[lat_idx(n_y, i, (j + n_y - 1) % n_y)];
    let n = cells[lat_idx(n_y, i, (j + 1) % n_y)];
    4 - 2 * (state_match(c, w) + state_match(c, e) + state_match(c, s) + state_match(c, n))
}

/// The grid of cell states. Cells are stored row-major: cell `(i, j)` is
/// entry `i * n_y + j`.
pub struct Lattice {
    pub n_x: usize,
    pub n_y: usize,
    pub n_states: u8,
    pub cells: Vec<u8>,
}

impl Lattice {
    /// The structural invariant: positive dimensions within bounds, at least
    /// one state, a fully allocated grid, and every cell in `[0, n_states)`.
    pub open spec fn wf(&self) -> bool {
        &&& 1 <= self.n_x <= MAX_DIM
        &&& 1 <= self.n_y <= MAX_DIM
        &&& self.n_states >= 1
        &&& self.cells@.len() == self.n_x * self.n_y
        &&& forall|m: int| 0 <= m < self.cells@.len() ==> self.cells@[m] < self.n_states
    }

    /// Number of cells in the grid.
    pub open spec fn n_cells(&self) -> nat {
        (self.n_x * self.n_y) as nat
    }

    /// Build a lattice with every cell holding the same state.
    pub fn new_constant(n_x: usize, n_y: usize, n_states: u8, fill: u8) -> (r: Lattice)
        requires
            1 <= n_x <= MAX_DIM,
            1 <= n_y <= MAX_DIM,
            n_states >= 1,
            fill < n_states,
        ensures
            r.wf(),
            r.n_x == n_x,
            r.n_y == n_y,
            r.n_states == n_states,
            r.cells@ == Seq::new((n_x * n_y) as nat, |m: int| fill),
    {
        proof {
            assert(n_x * n_y <= 0x4000_0000) by (nonlinear_arith)
                requires
                    1 <= n_x <= 32768,
                    1 <= n_y <= 32768,
            ;
        }
        let total: usize = n_x * n_y;
        let mut cells: Vec<u8> = Vec::new();
        let mut m: usize = 0;
        while m < total
            invariant
                m <= total,
                cells@.len() == m,
                forall|q: int| 0 <= q < m ==> cells@[q] == fill,
            decreases total - m,
        {
            cells.push(fill);
            m = m + 1;
        }
        let r = Lattice { n_x, n_y, n_states, cells };
        proof {
            assert(r.cells@ =~= Seq::new((n_x * n_y) as nat, |q: int| fill));
        }
        r
    }

    /// Build a lattice with every cell drawn from the random stream, in
    /// flat row-major order, one draw per cell.
    pub fn new_random(n_x: usize, n_y: usize, n_states: u8, rng: &mut SimRng) -> (r: Lattice)
        requires
            1 <= n_x <= MAX_DIM,
            1 <= n_y <= MAX_DIM,
            n_states >= 1,
        ensures
            r.wf(),
            r.n_x == n_x,
            r.n_y == n_y,
            r.n_states == n_states,
            r.cells@ == spec_fill_random(
                (n_x * n_y) as nat,
                n_states,
                old(rng).seed(),
                old(rng).drawn(),
            ),
            final(rng).seed() == old(rng).seed(),
            final(rng).drawn() == old(rng).drawn() + (n_x * n_y) as nat,
    {
        proof {
            assert(n_x * n_y <= 0x4000_0000) by (nonlinear_arith)
                requires
                    1 <= n_x <= 32768,
                    1 <= n_y <= 32768,
            ;
        }
        let total: usize = n_x * n_y;
        let mut cells: Vec<u8> = Vec::new();
        let mut m: usize = 0;
        while m < total
            invariant
                m <= total,
                n_states >= 1,
                cells@.len() == m,
                rng.seed() == old(rng).seed(),
                rng.drawn() == old(rng).drawn() + m,
                forall|q: int|
                    0 <= q < m ==> #[trigger] cells@[q] == stream_below(
                        old(rng).seed(),
                        (old(rng).drawn() + q) as nat,
                        n_states as u64,
                    ) as u8,
            decreases total - m,
        {
            let v = rng.next_below(n_states as u64) as u8;
            cells.push(v);
            m = m + 1;
        }
        let r = Lattice { n_x, n_y, n_states, cells };
        proof {
            assert(r.cells@ =~= spec_fill_random(
                (n_x * n_y) as nat,
                n_states,
                old(rng).seed(),
                old(rng).drawn(),
            ));
        }
        r
    }

    /// Read the state of cell `(i, j)`.
    pub fn get(&self, i: usize, j: usize) -> (v: u8)
        requires
            self.wf(),
            i < self.n_x,
            j < self.n_y,
        ensures
            v == self.cells@[lat_idx(self.n_y as int, i as int, j as int)],
            v < self.n_states,
    {
        proof {
            lemma_lat_idx_bounds(self.n_x as int, self.n_y as int, i as int, j as int);
        }
        self.cells[i * self.n_y + j]
    }

    /// Overwrite the state of cell `(i, j)`.
    pub fn set(&mut self, i: usize, j: usize, v: u8)
        requires
            old(self).wf(),
            i < old(self).n_x,
            j < old(self).n_y,
            v < old(self).n_states,
        ensures
            final(self).wf(),
            final(self).n_x == old(self).n_x,
            final(self).n_y == old(self).n_y,
            final(self).n_states == old(self).n_states,
            final(self).cells@ == old(self).cells@.update(
                lat_idx(old(self).n_y as int, i as int, j as int),
                v,
            ),
    {
        proof {
            lemma_lat_idx_bounds(self.n_x as int, self.n_y as int, i as int, j as int);
        }
        let ii = i * self.n_y + j;
        self.cells.set(ii, v);
    }

    /// The local interaction energy of cell `(i, j)`.
    pub fn energy(&self, i: usize, j: usize) -> (e: i64)
        requires
            self.wf(),
            i < self.n_x,
            j < self.n_y,
        ensures
            e == spec_energy(self.cells@, self.n_x as int, self.n_y as int, i as int, j as int),
            -4 <= e <= 4,
    {
        let c = self.get(i, j);
        let w = self.get((i + self.n_x - 1) % self.n_x, j);
        let e = self.get((i + 1) % self.n_x, j);
        let s = self.get(i, (j + self.n_y - 1) % self.n_y);
        let n = self.get(i, (j + 1) % self.n_y);
        let mut k: i64 = 0;
        if c == w {
            k = k + 1;
        }
        if c == e {
            k = k + 1;
        }
        if c == s {
            k = k + 1;
        }
        if c == n {
            k = k + 1;
        }
        4 - 2 * k
    }
}

/// The inverse-temperature field a sweep reads: a single scalar in the
/// uniform mode, or one Q.16 value per cell in the spatially varying mode.
pub enum BetaField {
    Uniform(u64),
    PerCell(Vec<u64>),
}

/// The mathematical shape of a beta field.
pub enum BetaSpec {
    Uniform(u64),
    PerCell(Seq<u64>),
}

impl View for BetaField {
    type V = BetaSpec;

    open spec fn view(&self) -> BetaSpec {
        match self {
            BetaField::Uniform(b) => BetaSpec::Uniform(*b),
            BetaField::PerCell(v) => BetaSpec::PerCell(v@),
        }
    }
}

/// The beta value in force at flat cell index `m`.
pub open spec fn beta_at(b: BetaSpec, m: int) -> u64 {
    match b {
        BetaSpec::Uniform(v) => v,
        BetaSpec::PerCell(s) => s[m],
    }
}

/// Well-formedness of a beta field for a grid of `n_cells` cells: fully
/// populated and bounded by `BETA_MAX_FP`.
pub open spec fn beta_wf(b: BetaSpec, n_cells: nat) -> bool {
    match b {
        BetaSpec::Uniform(v) => v <= BETA_MAX_FP,
        BetaSpec::PerCell(s) => s.len() == n_cells && forall|m: int|
            0 <= m < s.len() ==> s[m] <= BETA_MAX_FP,
    }
}

impl BetaField {
    /// Read the beta value in force at flat cell index `m`.
    pub(crate) fn local(&self, m: usize, Ghost(n_cells): Ghost<nat>) -> (b: u64)
        requires
            beta_wf(self@, n_cells),
            m < n_cells,
        ensures
            b == beta_at(self@, m as int),
            b <= BETA_MAX_FP,
    {
        match self {
            BetaField::Uniform(v) => *v,
            BetaField::PerCell(f) => f[m],
        }
    }
}

/// The Metropolis acceptance rule in fixed point. A trial that does not
/// raise the energy (`de >= 0`, where `de` is old minus new energy) is
/// always accepted; one that raises it is accepted exactly when the Q.32
/// acceptance fraction falls below the threshold `e^(-beta * |de|)`.
pub open spec fn metropolis_accepts(de: int, beta: u64, frac: u64) -> bool {
    de >= 0 || frac < exp_q32((beta * (0 - de)) as nat)
}

/// Row of the site drawn by the trial at stream position `k`.
pub open spec fn trial_i(n_x: int, seed: u64, k: nat) -> int {
    stream_below(seed, k, n_x as u64) as int
}

/// Column of the site drawn by the trial at stream position `k`.
pub open spec fn trial_j(n_y: int, seed: u64, k: nat) -> int {
    stream_below(seed, k + 1, n_y as u64) as int
}

/// Candidate state drawn by the trial at stream position `k`.
pub open spec fn trial_cand(n_states: u8, seed: u64, k: nat) -> u8 {
    stream_below(seed, k + 2, n_states as u64) as u8
}

/// Flat index of the site drawn by the trial at stream position `k`.
pub open spec fn trial_cell(n_x: int, n_y: int, seed: u64, k: nat) -> int {
    lat_idx(n_y, trial_i(n_x, seed, k), trial_j(n_y, seed, k))
}

/// Whether the trial at stream position `k` accepts its candidate.
pub open spec fn trial_accepts(
    cells: Seq<u8>,
    n_x: int,
    n_y: int,
    n_states: u8,
    b: BetaSpec,
    seed: u64,
    k: nat,
) -> bool {
    let i = trial_i(n_x, seed, k);
    let j = trial_j(n_y, seed, k);
    let ii = lat_idx(n_y, i, j);
    let old_e = spec_energy(cells, n_x, n_y, i, j);
    let proposed = cells.update(ii, trial_cand(n_states, seed, k));
    let new_e = spec_energy(proposed, n_x, n_y, i, j);
    metropolis_accepts(old_e - new_e, beta_at(b, ii), stream_frac(seed, k + 3))
}

/// The lattice contents after one Metropolis trial, as a function of the
/// cell contents and the position `k` in the seeded random stream. The
/// trial consumes exactly four draws, in this order: site row, site column,
/// candidate state, acceptance fraction.
pub open spec fn spec_trial(
    cells: Seq<u8>,
    n_x: int,
    n_y: int,
    n_states: u8,
    b: BetaSpec,
    seed: u64,
    k: nat,
) -> Seq<u8> {
    if trial_accepts(cells, n_x, n_y, n_states, b, seed, k) {
        cells.update(trial_cell(n_x, n_y, seed, k), trial_cand(n_states, seed, k))
    } else {
        cells
    }
}

/// Sum of the local energies of the first `m` cells (in flat order).
pub open spec fn sum_energy(cells: Seq<u8>, n_x: int, n_y: int, m: nat) -> int
    decreases m,
{
    if m == 0 {
        0
    } else {
        sum_energy(cells, n_x, n_y, (m - 1) as nat) + spec_energy(
            cells,
            n_x,
            n_y,
            ((m - 1) as int) / n_y,
            ((m - 1) as int) % n_y,
        )
    }
}

/// The total interaction energy of the lattice.
pub open spec fn total_energy(cells: Seq<u8>, n_x: int, n_y: int) -> int {
    sum_energy(cells, n_x, n_y, (n_x * n_y) as nat)
}

/// Every cell value lies below `n_states`.
pub open spec fn cells_in_range(cells: Seq<u8>, n_states: u8) -> bool {
    forall|m: int| 0 <= m < cells.len() ==> cells[m] < n_states
}

/// What one trial does to the lattice. A rejected trial leaves every cell,
/// and with them the lattice's total energy, unchanged. An accepted trial
/// writes the drawn candidate into the drawn cell and touches no other
/// cell, so it changes exactly one cell whenever the candidate differs from
/// the cell's prior state. Cell values stay inside `[0, n_states)` either
/// way.
pub proof fn lemma_trial_effect(
    cells: Seq<u8>,
    n_x: int,
    n_y: int,
    n_states: u8,
    b: BetaSpec,
    seed: u64,
    k: nat,
)
    requires
        1 <= n_x <= MAX_DIM,
        1 <= n_y <= MAX_DIM,
        n_states >= 1,
        cells.len() == n_x * n_y,
        cells_in_range(cells, n_states),
    ensures
        !trial_accepts(cells, n_x, n_y, n_states, b, seed, k) ==> spec_trial(
            cells,
            n_x,
            n_y,
            n_states,
            b,
            seed,
            k,
        ) == cells,
        !trial_accepts(cells, n_x, n_y, n_states, b, seed, k) ==> total_energy(
            spec_trial(cells, n_x, n_y, n_states, b, seed, k),
            n_x,
            n_y,
        ) == total_energy(cells, n_x, n_y),
        trial_accepts(cells, n_x, n_y, n_states, b, seed, k) ==> spec_trial(
            cells,
            n_x,
            n_y,
            n_states,
            b,
            seed,
            k,
        ) == cells.update(trial_cell(n_x, n_y, seed, k), trial_cand(n_states, seed, k)),
        forall|m: int|
            0 <= m < cells.len() && m != trial_cell(n_x, n_y, seed, k) ==> spec_trial(
                cells,
                n_x,
                n_y,
                n_states,
                b,
                seed,
                k,
            )[m] == cells[m],
        spec_trial(cells, n_x, n_y, n_states, b, seed, k).len() == cells.len(),
        cells_in_range(spec_trial(cells, n_x, n_y, n_states, b, seed, k), n_states),
{
    let i = trial_i(n_x, seed, k);
    let j = trial_j(n_y, seed, k);
    lemma_lat_idx_bounds(n_x, n_y, i, j);
}

/// With beta equal to zero at the drawn cell, the acceptance probability is
/// one: every proposed move is accepted, whatever the energies and whatever
/// the acceptance draw.
pub proof fn lemma_trial_beta_zero(
    cells: Seq<u8>,
    n_x: int,
    n_y: int,
    n_states: u8,
    b: BetaSpec,
    seed: u64,
    k: nat,
)
    requires
        beta_at(b, trial_cell(n_x, n_y, seed, k)) == 0,
    ensures
        trial_accepts(cells, n_x, n_y, n_states, b, seed, k),
        spec_trial(cells, n_x, n_y, n_states, b, seed, k) == cells.update(
            trial_cell(n_x, n_y, seed, k),
            trial_cand(n_states, seed, k),
        ),
{
    let ii = trial_cell(n_x, n_y, seed, k);
    let i = trial_i(n_x, seed, k);
    let j = trial_j(n_y, seed, k);
    let old_e = spec_energy(cells, n_x, n_y, i, j);
    let proposed = cells.update(ii, trial_cand(n_states, seed, k));
    let new_e = spec_energy(proposed, n_x, n_y, i, j);
    let de = old_e - new_e;
    if de < 0 {
        assert(0u64 * (0 - de) == 0) by (nonlinear_arith);
        crate::fixed::lemma_exp_q32_zero();
        let raw = crate::rng::pcg64_stream(seed, k + 3);
        assert(stream_frac(seed, k + 3) < 0x1_0000_0000) by (nonlinear_arith)
            requires
                stream_frac(seed, k + 3) == raw / 0x1_0000_0000,
                raw <= 0xFFFF_FFFF_FFFF_FFFFu64,
        ;
    }
}

/// Any beta at or above this Q.16 value (the real number 6) freezes a
/// uniform lattice: the smallest energy penalty of a state-changing move on
/// a uniform grid is 4 units, and `e^(-6 * 4)` already rounds to zero in
/// Q.32 probability.
pub const BETA_FREEZE_FP: u64 = 393216;

/// At or beyond the freezing beta, a uniform lattice is a fixed point of
/// the Metropolis trial: every state-changing proposal is rejected, and a
/// proposal of the incumbent state changes nothing. The one degenerate
/// exception is the 1-by-1 grid, whose four neighbours are the cell itself,
/// so it is excluded.
pub proof fn lemma_trial_frozen(
    cells: Seq<u8>,
    n_x: int,
    n_y: int,
    n_states: u8,
    b: BetaSpec,
    seed: u64,
    k: nat,
    v: u8,
)
    requires
        1 <= n_x <= MAX_DIM,
        1 <= n_y <= MAX_DIM,
        n_x >= 2 || n_y >= 2,
        n_states >= 1,
        cells.len() == n_x * n_y,
        forall|m: int| 0 <= m < cells.len() ==> cells[m] == v,
        forall|m: int| 0 <= m < cells.len() ==> beta_at(b, m) >= BETA_FREEZE_FP,
    ensures
        spec_trial(cells, n_x, n_y, n_states, b, seed, k) == cells,
{
    let i = trial_i(n_x, seed, k);
    let j = trial_j(n_y, seed, k);
    let ii = lat_idx(n_y, i, j);
    let cand = trial_cand(n_states, seed, k);
    assert(0 <= i < n_x && 0 <= j < n_y) by (nonlinear_arith)
        requires
            i == (pcg64_stream(seed, k) % (n_x as u64)) as int,
            j == (pcg64_stream(seed, k + 1) % (n_y as u64)) as int,
            1 <= n_x <= MAX_DIM,
            1 <= n_y <= MAX_DIM,
    ;
    lemma_lat_idx_bounds(n_x, n_y, i, j);
    let iw = (i + n_x - 1) % n_x;
    let ie = (i + 1) % n_x;
    let js = (j + n_y - 1) % n_y;
    let jn = (j + 1) % n_y;
    if i == 0 {
        vstd::arithmetic::div_mod::lemma_fundamental_div_mod_converse(i + n_x - 1, n_x, 0, n_x - 1);
    } else {
        vstd::arithmetic::div_mod::lemma_fundamental_div_mod_converse(i + n_x - 1, n_x, 1, i - 1);
    }
    if i + 1 == n_x {
        vstd::arithmetic::div_mod::lemma_fundamental_div_mod_converse(i + 1, n_x, 1, 0);
    } else {
        vstd::arithmetic::div_mod::lemma_fundamental_div_mod_converse(i + 1, n_x, 0, i + 1);
    }
    if j == 0 {
        vstd::arithmetic::div_mod::lemma_fundamental_div_mod_converse(j + n_y - 1, n_y, 0, n_y - 1);
    } else {
        vstd::arithmetic::div_mod::lemma_fundamental_div_mod_converse(j + n_y - 1, n_y, 1, j - 1);
    }
    if j + 1 == n_y {
        vstd::arithmetic::div_mod::lemma_fundamental_div_mod_converse(j + 1, n_y, 1, 0);
    } else {
        vstd::arithmetic::div_mod::lemma_fundamental_div_mod_converse(j + 1, n_y, 0, j + 1);
    }
    assert(0 <= iw < n_x && 0 <= ie < n_x && 0 <= js < n_y && 0 <= jn < n_y);
    lemma_lat_idx_bounds(n_x, n_y, iw, j);
    lemma_lat_idx_bounds(n_x, n_y, ie, j);
    lemma_lat_idx_bounds(n_x, n_y, i, js);
    lemma_lat_idx_bounds(n_x, n_y, i, jn);
    let proposed = cells.update(ii, cand);
    if cand == v {
        assert(proposed =~= cells);
    } else {
        assert(spec_energy(cells, n_x, n_y, i, j) == -4);
        let de = spec_energy(cells, n_x, n_y, i, j) - spec_energy(proposed, n_x, n_y, i, j);
        if n_y == 1 {
            assert(js == j && jn == j);
            assert(iw != i && ie != i);
            assert(lat_idx(n_y, iw, j) != ii && lat_idx(n_y, ie, j) != ii) by (nonlinear_arith)
                requires
                    iw != i,
                    ie != i,
                    n_y >= 1,
                    ii == i * n_y + j,
                    lat_idx(n_y, iw, j) == iw * n_y + j,
                    lat_idx(n_y, ie, j) == ie * n_y + j,
            ;
            assert(spec_energy(proposed, n_x, n_y, i, j) == 0);
        } else if n_x == 1 {
            assert(i == 0 && iw == 0 && ie == 0);
            assert(js != j && jn != j);
            assert(spec_energy(proposed, n_x, n_y, i, j) == 0);
        } else {
            assert(iw != i && ie != i);
            assert(lat_idx(n_y, iw, j) != ii && lat_idx(n_y, ie, j) != ii) by (nonlinear_arith)
                requires
                    iw != i,
                    ie != i,
                    n_y >= 1,
                    ii == i * n_y + j,
                    lat_idx(n_y, iw, j) == iw * n_y + j,
                    lat_idx(n_y, ie, j) == ie * n_y + j,
            ;
            assert(js != j && jn != j);
            assert(spec_energy(proposed, n_x, n_y, i, j) == 4);
        }
        assert(de <= -4);
        let beta = beta_at(b, ii);
        let x = (beta * (0 - de)) as nat;
        assert(x >= 1572864) by (nonlinear_arith)
            requires
                beta >= 393216,
                0 - de >= 4,
                x == beta * (0 - de),
        ;
        crate::fixed::lemma_exp_q32_frozen(x);
        assert(!metropolis_accepts(de, beta, stream_frac(seed, k + 3)));
    }
}

/// Perform one Metropolis trial: draw a site, propose a state, accept or
/// revert. Consumes exactly four random draws.
pub fn trial(lat: &mut Lattice, bf: &BetaField, rng: &mut SimRng)
    requires
        old(lat).wf(),
        beta_wf(bf@, old(lat).n_cells()),
    ensures
        final(lat).wf(),
        final(lat).n_x == old(lat).n_x,
        final(lat).n_y == old(lat).n_y,
        final(lat).n_states == old(lat).n_states,
        final(lat).cells@ == spec_trial(
            old(lat).cells@,
            old(lat).n_x as int,
            old(lat).n_y as int,
            old(lat).n_states,
            bf@,
            old(rng).seed(),
            old(rng).drawn(),
        ),
        final(rng).seed() == old(rng).seed(),
        final(rng).drawn() == old(rng).drawn() + 4,
{
    let i = rng.next_below(lat.n_x as u64) as usize;
    let j = rng.next_below(lat.n_y as u64) as usize;
    let cand = rng.next_below(lat.n_states as u64) as u8;
    let old_e = lat.energy(i, j);
    let old_v = lat.get(i, j);
    lat.set(i, j, cand);
    let new_e = lat.energy(i, j);
    let frac = rng.next_frac();
    let de: i64 = old_e - new_e;
    proof {
        lemma_lat_idx_bounds(lat.n_x as int, lat.n_y as int, i as int, j as int);
    }
    let local = bf.local(i * lat.n_y + j, Ghost(lat.n_cells()));
    let accepted: bool = if de >= 0 {
        true
    } else {
        proof {
            let pen = (-de) as int;
            assert((local as int) * pen <= 0x800_0000_0000int) by (nonlinear_arith)
                requires
                    0 <= local <= 0x100_0000_0000,
                    0 <= pen <= 8,
            ;
        }
        let x: u64 = local * ((-de) as u64);
        let t = exp_prob(x);
        frac < t
    };
    if !accepted {
        lat.set(i, j, old_v);
        proof {
            assert(final(lat).cells@ =~= old(lat).cells@);
        }
    }
}

/// The lattice contents after `t` consecutive Metropolis trials starting at
/// stream position `k0`.
pub open spec fn spec_sweep(
    cells: Seq<u8>,
    n_x: int,
    n_y: int,
    n_states: u8,
    b: BetaSpec,
    seed: u64,
    k0: nat,
    t: nat,
) -> Seq<u8>
    decreases t,
{
    if t == 0 {
        cells
    } else {
        spec_trial(
            spec_sweep(cells, n_x, n_y, n_states, b, seed, k0, (t - 1) as nat),
            n_x,
            n_y,
            n_states,
            b,
            seed,
            k0 + 4 * ((t - 1) as nat),
        )
    }
}

/// Sweeps keep every cell value inside `[0, n_states)`: together with the
/// same guarantee on construction, every reachable lattice state is in
/// range.
pub proof fn lemma_sweep_preserves_range(
    cells: Seq<u8>,
    n_x: int,
    n_y: int,
    n_states: u8,
    b: BetaSpec,
    seed: u64,
    k0: nat,
    t: nat,
)
    requires
        1 <= n_x <= MAX_DIM,
        1 <= n_y <= MAX_DIM,
        n_states >= 1,
        cells.len() == n_x * n_y,
        cells_in_range(cells, n_states),
    ensures
        spec_sweep(cells, n_x, n_y, n_states, b, seed, k0, t).len() == cells.len(),
        cells_in_range(spec_sweep(cells, n_x, n_y, n_states, b, seed, k0, t), n_states),
    decreases t,
{
    if t > 0 {
        lemma_sweep_preserves_range(cells, n_x, n_y, n_states, b, seed, k0, (t - 1) as nat);
        lemma_trial_effect(
            spec_sweep(cells, n_x, n_y, n_states, b, seed, k0, (t - 1) as nat),
            n_x,
            n_y,
            n_states,
            b,
            seed,
            k0 + 4 * ((t - 1) as nat),
        );
    }
}

/// At or beyond the freezing beta, a uniform lattice is a fixed point of
/// whole sweeps: as beta grows, sweeps on an ordered lattice converge to
/// zero accepted state changes. The 1-by-1 grid is again excluded.
pub proof fn lemma_sweep_frozen(
    cells: Seq<u8>,
    n_x: int,
    n_y: int,
    n_states: u8,
    b: BetaSpec,
    seed: u64,
    k0: nat,
    t: nat,
    v: u8,
)
    requires
        1 <= n_x <= MAX_DIM,
        1 <= n_y <= MAX_DIM,
        n_x >= 2 || n_y >= 2,
        n_states >= 1,
        cells.len() == n_x * n_y,
        forall|m: int| 0 <= m < cells.len() ==> cells[m] == v,
        forall|m: int| 0 <= m < cells.len() ==> beta_at(b, m) >= BETA_FREEZE_FP,
    ensures
        spec_sweep(cells, n_x, n_y, n_states, b, seed, k0, t) == cells,
    decreases t,
{
    if t > 0 {
        lemma_sweep_frozen(cells, n_x, n_y, n_states, b, seed, k0, (t - 1) as nat, v);
        lemma_trial_frozen(cells, n_x, n_y, n_states, b, seed, k0 + 4 * ((t - 1) as nat), v);
    }
}

/// Perform one sweep: exactly `n_x * n_y` Metropolis trials, consuming four
/// random draws each.
pub fn sweep(lat: &mut Lattice, bf: &BetaField, rng: &mut SimRng)
    requires
        old(lat).wf(),
        beta_wf(bf@, old(lat).n_cells()),
    ensures
        final(lat).wf(),
        final(lat).n_x == old(lat).n_x,
        final(lat).n_y == old(lat).n_y,
        final(lat).n_states == old(lat).n_states,
        final(lat).cells@ == spec_sweep(
            old(lat).cells@,
            old(lat).n_x as int,
            old(lat).n_y as int,
            old(lat).n_states,
            bf@,
            old(rng).seed(),
            old(rng).drawn(),
            old(lat).n_cells(),
        ),
        final(rng).seed() == old(rng).seed(),
        final(rng).drawn() == old(rng).drawn() + 4 * old(lat).n_cells(),
{
    proof {
        let nx = old(lat).n_x as int;
        let ny = old(lat).n_y as int;
        assert(nx * ny <= 0x4000_0000) by (nonlinear_arith)
            requires
                1 <= nx <= 32768,
                1 <= ny <= 32768,
        ;
    }
    let total: usize = lat.n_x * lat.n_y;
    let mut t: usize = 0;
    while t < total
        invariant
            t <= total,
            total == old(lat).n_cells(),
            lat.wf(),
            lat.n_x == old(lat).n_x,
            lat.n_y == old(lat).n_y,
            lat.n_states == old(lat).n_states,
            beta_wf(bf@, old(lat).n_cells()),
            lat.cells@ == spec_sweep(
                old(lat).cells@,
                old(lat).n_x as int,
                old(lat).n_y as int,
                old(lat).n_states,
                bf@,
                old(rng).seed(),
                old(rng).drawn(),
                t as nat,
            ),
            rng.seed() == old(rng).seed(),
            rng.drawn() == old(rng).drawn() + 4 * t,
        decreases total - t,
    {
        trial(lat, bf, rng);
        t = t + 1;
    }
}

} // verus!
