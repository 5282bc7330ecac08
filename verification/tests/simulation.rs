//! Behavioural tests of the simulator: the random stream, the Metropolis
//! sweep, the temperature schedules, the spatial field, and whole-run
//! determinism.

use lattice_mc::field::GridGeom;
use lattice_mc::lattice::{trial, BetaField, Lattice};
use lattice_mc::rng::SimRng;
use lattice_mc::schedule::BetaSchedule;
use lattice_mc::sim::{
    BetaDrive, ConfigError, InitFill, Motion, SimConfig, Simulation, TempMode,
};
use rand::{RngCore, SeedableRng};

/// One Q.16 unit.
const FP: i64 = 65536;

fn plain_geom() -> GridGeom {
    GridGeom { w_x: FP, w_y: FP, x0: 0, y0: 0 }
}

fn rejection(r: Result<Simulation, ConfigError>) -> ConfigError {
    match r {
        Ok(_) => panic!("configuration was accepted"),
        Err(e) => e,
    }
}

fn uniform_config(n_x: usize, n_y: usize, n_states: u8, seed: u64, beta: i64) -> SimConfig {
    SimConfig {
        n_x,
        n_y,
        n_states,
        seed,
        geom: plain_geom(),
        temp: TempMode::Uniform(BetaSchedule { beta, delta: 0, lo: beta, hi: beta }),
        motion: Motion::Stationary,
        init_fill: InitFill::Constant(0),
    }
}

#[test]
fn stream_matches_the_generator_it_wraps() {
    // The library's stream must be exactly the Pcg64 stream for the same
    // seed: this fails if the wrapper returned anything of its own.
    let mut ours = SimRng::new_seeded(0xDEAD_BEEF);
    let mut theirs = rand_pcg::Pcg64::seed_from_u64(0xDEAD_BEEF);
    for _ in 0..64 {
        assert_eq!(ours.next_raw(), theirs.next_u64());
    }
}

#[test]
fn stream_depends_on_the_seed() {
    let mut a = SimRng::new_seeded(1);
    let mut b = SimRng::new_seeded(2);
    let draws_a: Vec<u64> = (0..8).map(|_| a.next_raw()).collect();
    let draws_b: Vec<u64> = (0..8).map(|_| b.next_raw()).collect();
    assert_ne!(draws_a, draws_b);
}

#[test]
fn ranged_draws_stay_in_range() {
    let mut rng = SimRng::new_seeded(7);
    for _ in 0..100 {
        assert!(rng.next_below(5) < 5);
    }
    let mut rng2 = SimRng::new_seeded(8);
    for _ in 0..100 {
        assert!(rng2.next_frac() < 0x1_0000_0000);
    }
}

#[test]
fn energy_counts_matching_neighbours() {
    let mut lat = Lattice::new_constant(3, 3, 2, 0);
    // All neighbours match: energy -4.
    assert_eq!(lat.energy(1, 1), -4);
    // Flip one neighbour of (1,1): 3 matches, energy 4 - 2*3 = -2.
    lat.set(0, 1, 1);
    assert_eq!(lat.energy(1, 1), -2);
    lat.set(2, 1, 1);
    assert_eq!(lat.energy(1, 1), 0);
    lat.set(1, 0, 1);
    assert_eq!(lat.energy(1, 1), 2);
    lat.set(1, 2, 1);
    assert_eq!(lat.energy(1, 1), 4);
    // Wraparound: cell (0,1) holds 1 and its west neighbour wraps to
    // (2,1), the one neighbour that also holds 1, so energy is 4 - 2*1.
    assert_eq!(lat.energy(0, 1), 2);
}

#[test]
fn zero_beta_sweep_accepts_every_trial() {
    // A 4x4 two-state lattice at beta = 0: each of the 16 trials must
    // accept, so the lattice after one sweep equals a replay that writes
    // every candidate unconditionally.
    let seed = 12345u64;
    let mut sim = Simulation::new(uniform_config(4, 4, 2, seed, 0)).unwrap();
    sim.step();

    let mut rng = SimRng::new_seeded(seed);
    let mut cells = [[0u8; 4]; 4];
    for _ in 0..16 {
        let i = rng.next_below(4) as usize;
        let j = rng.next_below(4) as usize;
        let cand = rng.next_below(2) as u8;
        let frac = rng.next_frac();
        // The acceptance threshold at beta = 0 is the full probability,
        // so no draw can block acceptance.
        assert!(frac < 0x1_0000_0000);
        cells[i][j] = cand;
    }
    for i in 0..4 {
        for j in 0..4 {
            assert_eq!(sim.read_cell(i, j), cells[i][j]);
        }
    }
}

#[test]
fn frozen_uniform_lattice_is_a_fixed_point() {
    // With beta far above the freezing bound, a uniform lattice survives
    // whole sweeps unchanged: zero accepted state changes.
    let beta = 8 * FP;
    let mut sim = Simulation::new(uniform_config(8, 8, 3, 99, beta)).unwrap();
    for _ in 0..5 {
        sim.step();
    }
    for i in 0..8 {
        for j in 0..8 {
            assert_eq!(sim.read_cell(i, j), 0);
        }
    }
}

#[test]
fn cells_stay_in_range() {
    let mut sim = Simulation::new(SimConfig {
        n_x: 6,
        n_y: 5,
        n_states: 4,
        seed: 3,
        geom: plain_geom(),
        temp: TempMode::Uniform(BetaSchedule { beta: FP / 2, delta: FP / 8, lo: FP / 2, hi: FP }),
        motion: Motion::Stationary,
        init_fill: InitFill::Random,
    })
    .unwrap();
    for _ in 0..10 {
        sim.step();
        for i in 0..6 {
            for j in 0..5 {
                assert!(sim.read_cell(i, j) < 4);
            }
        }
    }
}

#[test]
fn identical_runs_are_bit_identical() {
    let make = || {
        Simulation::new(SimConfig {
            n_x: 8,
            n_y: 8,
            n_states: 3,
            seed: 4242,
            geom: plain_geom(),
            temp: TempMode::Uniform(BetaSchedule {
                beta: FP / 4,
                delta: FP / 16,
                lo: FP / 4,
                hi: 2 * FP,
            }),
            motion: Motion::Stationary,
            init_fill: InitFill::Random,
        })
        .unwrap()
    };
    let mut a = make();
    let mut b = make();
    for step in 0..12 {
        a.step();
        b.step();
        for i in 0..8 {
            for j in 0..8 {
                assert_eq!(a.read_cell(i, j), b.read_cell(i, j), "diverged at step {step}");
            }
        }
    }
}

#[test]
fn oscillating_beta_reflects_exactly_at_the_bounds() {
    // Band [2, 4] in Q.16, step 1: the trajectory is a triangle wave that
    // overshoots each bound by at most one step and reverses there.
    let mut s = BetaSchedule { beta: 2 * FP, delta: FP, lo: 2 * FP, hi: 4 * FP };
    let mut seen = Vec::new();
    for _ in 0..9 {
        seen.push(s.beta);
        s.advance();
    }
    assert_eq!(
        seen,
        vec![
            2 * FP,
            3 * FP,
            4 * FP,
            5 * FP, // one step past the top bound...
            4 * FP, // ...then reflected
            3 * FP,
            2 * FP,
            FP,     // one step past the bottom bound...
            2 * FP, // ...then reflected
        ]
    );
    for &b in &seen {
        assert!(2 * FP - FP <= b && b <= 4 * FP + FP);
    }
}

#[test]
fn rejected_configurations_name_their_fault() {
    let ok = uniform_config(4, 4, 2, 1, FP);
    assert!(Simulation::new(ok).is_ok());

    let mut bad = uniform_config(4, 4, 2, 1, FP);
    bad.n_x = 0;
    assert_eq!(rejection(Simulation::new(bad)), ConfigError::BadDimensions);

    let mut bad = uniform_config(4, 4, 2, 1, FP);
    bad.n_states = 0;
    assert_eq!(rejection(Simulation::new(bad)), ConfigError::BadStateCount);

    let mut bad = uniform_config(4, 4, 2, 1, FP);
    bad.geom.w_x = 0;
    assert_eq!(rejection(Simulation::new(bad)), ConfigError::BadGeometry);

    let mut bad = uniform_config(4, 4, 2, 1, FP);
    bad.temp = TempMode::Uniform(BetaSchedule { beta: 0, delta: 0, lo: 2 * FP, hi: FP });
    assert_eq!(rejection(Simulation::new(bad)), ConfigError::BadTemperature);

    let mut bad = uniform_config(4, 4, 2, 1, FP);
    bad.motion = Motion::Outline { dr: 0 };
    assert_eq!(rejection(Simulation::new(bad)), ConfigError::BadMotion);

    let mut bad = uniform_config(4, 4, 2, 1, FP);
    bad.init_fill = InitFill::Constant(2);
    assert_eq!(rejection(Simulation::new(bad)), ConfigError::BadFill);

    let mut two_states_fill_one = uniform_config(4, 4, 2, 1, FP);
    two_states_fill_one.init_fill = InitFill::Constant(1);
    assert!(Simulation::new(two_states_fill_one).is_ok());
}

#[test]
fn each_trial_changes_at_most_one_cell() {
    let mut lat = Lattice::new_random(5, 5, 3, &mut SimRng::new_seeded(11));
    let bf = BetaField::Uniform((FP / 2) as u64);
    let mut rng = SimRng::new_seeded(13);
    for _ in 0..200 {
        let before = lat.cells.clone();
        trial(&mut lat, &bf, &mut rng);
        let diffs = before.iter().zip(lat.cells.iter()).filter(|(a, b)| a != b).count();
        assert!(diffs <= 1, "one trial touched {diffs} cells");
    }
}

#[test]
fn single_cell_lattice_keeps_running() {
    let mut sim = Simulation::new(uniform_config(1, 1, 3, 17, FP)).unwrap();
    for _ in 0..10 {
        sim.step();
        assert!(sim.read_cell(0, 0) < 3);
    }
}

#[test]
fn single_state_lattice_never_changes() {
    let mut sim = Simulation::new(uniform_config(5, 5, 1, 23, 0)).unwrap();
    for _ in 0..5 {
        sim.step();
    }
    for i in 0..5 {
        for j in 0..5 {
            assert_eq!(sim.read_cell(i, j), 0);
        }
    }
}

#[test]
fn dimension_bounds_are_sharp() {
    let at_max = uniform_config(32768, 1, 2, 1, FP);
    assert!(Simulation::new(at_max).is_ok());
    let mut beyond = uniform_config(32768, 1, 2, 1, FP);
    beyond.n_x = 32769;
    assert_eq!(rejection(Simulation::new(beyond)), ConfigError::BadDimensions);
}

#[test]
fn uniform_beta_is_read_back_everywhere() {
    let sim = Simulation::new(uniform_config(4, 3, 2, 5, 3 * FP)).unwrap();
    for i in 0..4 {
        for j in 0..3 {
            assert_eq!(sim.read_beta(i, j), (3 * FP) as u64);
        }
    }
}
