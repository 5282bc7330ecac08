//! Tests of the spatial pieces: hotspot distance and interpolation,
//! outline resampling, and the outline-driven simulation path.

use lattice_mc::field::{compute_field, min_distance, pos_beta, GridGeom};
use lattice_mc::orbit::{init_phases, OrbitConfig};
use lattice_mc::outline::{resample_outline, seg_sample_count, Segment};
use lattice_mc::schedule::BetaSchedule;
use lattice_mc::sim::{BetaDrive, InitFill, Motion, SimConfig, Simulation, TempMode};
use lattice_mc::Hotspot;

const FP: i64 = 65536;

#[test]
fn min_distance_saturates_at_the_radius() {
    let hs: Vec<Hotspot> = Vec::new();
    assert_eq!(min_distance(&hs, 0, 0, 50 * FP as u64), 50 * FP as u64);
    let far = vec![Hotspot { x: 1000 * FP, y: 0 }];
    assert_eq!(min_distance(&far, 0, 0, 50 * FP as u64), 50 * FP as u64);
}

#[test]
fn min_distance_finds_the_nearest_source() {
    let hs = vec![Hotspot { x: 10 * FP, y: 0 }, Hotspot { x: 3 * FP, y: 4 * FP }];
    // The second source is at Euclidean distance exactly 5 units.
    assert_eq!(min_distance(&hs, 0, 0, 50 * FP as u64), 5 * FP as u64);
}

#[test]
fn interpolation_hits_both_endpoints_exactly() {
    let lo = (FP / 2) as u64;
    let hi = (3 * FP) as u64;
    let cap = (50 * FP) as u64;
    let hs = vec![Hotspot { x: 7 * FP, y: -2 * FP }];
    // At the hotspot itself the field is exactly the hot (low) value.
    assert_eq!(pos_beta(&hs, 7 * FP, -2 * FP, lo, hi, cap), lo);
    // Beyond the influence radius it is exactly the cold (high) value.
    assert_eq!(pos_beta(&hs, 200 * FP, 0, lo, hi, cap), hi);
    // Half way it is the exact midpoint of the band.
    assert_eq!(pos_beta(&hs, 7 * FP + 25 * FP, -2 * FP, lo, hi, cap), (lo + hi) / 2);
}

#[test]
fn field_covers_every_cell() {
    let hs = vec![Hotspot { x: 0, y: 0 }];
    let g = GridGeom { w_x: FP, w_y: FP, x0: 0, y0: 0 };
    let betas = compute_field(&hs, &g, 6, 4, 100, 200, (10 * FP) as u64);
    assert_eq!(betas.len(), 24);
    // The cell sitting on the hotspot gets the hot value.
    assert_eq!(betas[0], 100);
    for &b in &betas {
        assert!(100 <= b && b <= 200);
    }
}

#[test]
fn resampling_yields_floor_len_over_dr_plus_endpoint() {
    // A 3-4-5 right triangle's hypotenuse: length exactly 5 units.
    let seg = Segment { x0: 0, y0: 0, x1: 3 * FP, y1: 4 * FP };
    assert_eq!(seg_sample_count(&seg, (2 * FP) as u64), 2);
    let pts = resample_outline(&vec![seg], (2 * FP) as u64).unwrap();
    // floor(5/2) = 2 leading samples plus the exact endpoint.
    assert_eq!(pts.len(), 3);
    assert_eq!((pts[0].x, pts[0].y), (0, 0));
    assert_eq!((pts[2].x, pts[2].y), (3 * FP, 4 * FP));
}

#[test]
fn resampling_walks_evenly_spaced_samples() {
    let seg = Segment { x0: 0, y0: 0, x1: 10 * FP, y1: 0 };
    let pts = resample_outline(&vec![seg], (3 * FP) as u64).unwrap();
    // Length 10, spacing 3: 3 samples plus the endpoint.
    assert_eq!(pts.len(), 4);
    let step = 10 * FP / 3;
    assert_eq!(pts[0].x, 0);
    assert_eq!(pts[1].x, step);
    assert_eq!(pts[2].x, 2 * step);
    assert_eq!(pts[3].x, 10 * FP);
    for p in &pts {
        assert_eq!(p.y, 0);
    }
}

#[test]
fn zero_length_segment_yields_its_single_point() {
    let seg = Segment { x0: 5 * FP, y0: 6 * FP, x1: 5 * FP, y1: 6 * FP };
    let pts = resample_outline(&vec![seg], FP as u64).unwrap();
    assert_eq!(pts.len(), 1);
    assert_eq!((pts[0].x, pts[0].y), (5 * FP, 6 * FP));
}

#[test]
fn short_segment_yields_only_its_endpoint() {
    let seg = Segment { x0: 0, y0: 0, x1: FP / 2, y1: 0 };
    let pts = resample_outline(&vec![seg], FP as u64).unwrap();
    assert_eq!(pts.len(), 1);
    assert_eq!((pts[0].x, pts[0].y), (FP / 2, 0));
}

#[test]
fn outline_concatenates_segments_in_order() {
    let a = Segment { x0: 0, y0: 0, x1: 2 * FP, y1: 0 };
    let b = Segment { x0: 2 * FP, y0: 0, x1: 2 * FP, y1: 2 * FP };
    let pts = resample_outline(&vec![a, b], FP as u64).unwrap();
    // Each segment: 2 leading samples plus its endpoint.
    assert_eq!(pts.len(), 6);
    assert_eq!((pts[2].x, pts[2].y), (2 * FP, 0));
    assert_eq!((pts[5].x, pts[5].y), (2 * FP, 2 * FP));
}

#[test]
fn outline_replaces_hotspots_wholesale() {
    let mut sim = Simulation::new(SimConfig {
        n_x: 8,
        n_y: 8,
        n_states: 3,
        seed: 21,
        geom: GridGeom { w_x: FP, w_y: FP, x0: 0, y0: 0 },
        temp: TempMode::Spatial {
            low: BetaDrive::Fixed((FP / 4) as u64),
            high: BetaDrive::Fixed((3 * FP) as u64),
            max_r: (4 * FP) as u64,
        },
        motion: Motion::Outline { dr: FP as u64 },
        init_fill: InitFill::Random,
    })
    .unwrap();
    assert_eq!(sim.hotspots.len(), 0);

    let frame = vec![Segment { x0: 0, y0: 0, x1: 3 * FP, y1: 0 }];
    assert!(sim.set_outline(&frame));
    assert_eq!(sim.hotspots.len(), 4);

    let next_frame = vec![Segment { x0: 0, y0: 0, x1: FP, y1: 0 }];
    assert!(sim.set_outline(&next_frame));
    assert_eq!(sim.hotspots.len(), 2);

    // Hotspots are stationary within a hold window: a step keeps them.
    sim.step();
    assert_eq!(sim.hotspots.len(), 2);

    // After the step, the beta at the hotspot cell is the hot value and a
    // far corner sits at the cold value.
    assert_eq!(sim.read_beta(0, 0), (FP / 4) as u64);
    assert_eq!(sim.read_beta(7, 7), (3 * FP) as u64);
}

#[test]
fn oversized_outline_is_refused_and_changes_nothing() {
    let mut sim = Simulation::new(SimConfig {
        n_x: 4,
        n_y: 4,
        n_states: 2,
        seed: 9,
        geom: GridGeom { w_x: FP, w_y: FP, x0: 0, y0: 0 },
        temp: TempMode::Spatial {
            low: BetaDrive::Fixed((FP / 4) as u64),
            high: BetaDrive::Fixed((2 * FP) as u64),
            max_r: (4 * FP) as u64,
        },
        motion: Motion::Outline { dr: FP as u64 },
        init_fill: InitFill::Constant(0),
    })
    .unwrap();
    let small = vec![Segment { x0: 0, y0: 0, x1: 2 * FP, y1: 0 }];
    assert!(sim.set_outline(&small));
    let kept = sim.hotspots.len();

    // A segment over two million units long at unit spacing would need
    // more hotspots than the capacity allows: refused, nothing replaced.
    let huge = vec![Segment { x0: 0, y0: 0, x1: (0x20_0000 + 7) * FP, y1: 0 }];
    assert!(!sim.set_outline(&huge));
    assert_eq!(sim.hotspots.len(), kept);
}

#[test]
fn oscillating_endpoint_drives_the_far_field() {
    // The cold endpoint of the spatial interpolation follows its own
    // oscillating schedule: a cell far from every hotspot reads exactly
    // the scheduled value, step by step.
    let sched = BetaSchedule { beta: 2 * FP, delta: FP / 2, lo: 2 * FP, hi: 3 * FP };
    let mut sim = Simulation::new(SimConfig {
        n_x: 6,
        n_y: 6,
        n_states: 2,
        seed: 31,
        geom: GridGeom { w_x: FP, w_y: FP, x0: 0, y0: 0 },
        temp: TempMode::Spatial {
            low: BetaDrive::Fixed((FP / 4) as u64),
            high: BetaDrive::Oscillating(sched),
            max_r: (2 * FP) as u64,
        },
        motion: Motion::Stationary,
        init_fill: InitFill::Constant(0),
    })
    .unwrap();
    // No hotspots at all: every cell sits at the cold endpoint.
    let mut expected = BetaSchedule { beta: 2 * FP, delta: FP / 2, lo: 2 * FP, hi: 3 * FP };
    for _ in 0..8 {
        sim.step();
        expected.advance();
        assert_eq!(sim.read_beta(5, 5), expected.beta as u64);
    }
}

#[test]
fn hold_frames_follow_the_equilibration_window() {
    assert_eq!(Simulation::hold_frame(0, 100, 180), None);
    assert_eq!(Simulation::hold_frame(100, 100, 180), None);
    assert_eq!(Simulation::hold_frame(101, 100, 180), Some(0));
    assert_eq!(Simulation::hold_frame(280, 100, 180), Some(1));
    assert_eq!(Simulation::hold_frame(461, 100, 180), Some(2));
}

#[test]
fn orbital_sources_move_each_step() {
    let mut sim = Simulation::new(SimConfig {
        n_x: 8,
        n_y: 8,
        n_states: 2,
        seed: 77,
        geom: GridGeom { w_x: FP, w_y: FP, x0: -4 * FP, y0: -4 * FP },
        temp: TempMode::Spatial {
            low: BetaDrive::Fixed((FP / 4) as u64),
            high: BetaDrive::Oscillating(BetaSchedule {
                beta: 2 * FP,
                delta: FP / 8,
                lo: 2 * FP,
                hi: 3 * FP,
            }),
            max_r: (3 * FP) as u64,
        },
        motion: Motion::Orbital {
            cfg: OrbitConfig {
                center_x: 0,
                center_y: 0,
                radius: (2 * FP) as u64,
                turn_delta: 0x4000_0000,
            },
            phases: init_phases(4),
        },
        init_fill: InitFill::Constant(0),
    })
    .unwrap();
    assert_eq!(sim.hotspots.len(), 4);
    let before: Vec<(i64, i64)> = sim.hotspots.iter().map(|h| (h.x, h.y)).collect();
    sim.step();
    let after: Vec<(i64, i64)> = sim.hotspots.iter().map(|h| (h.x, h.y)).collect();
    assert_ne!(before, after);
    // A quarter turn maps the source set onto itself as a set.
    for p in &after {
        assert!(before.contains(p), "quarter turn should permute the ring");
    }
    sim.step();
    sim.step();
    sim.step();
    let full: Vec<(i64, i64)> = sim.hotspots.iter().map(|h| (h.x, h.y)).collect();
    assert_eq!(before, full, "four quarter turns return the ring");
}
