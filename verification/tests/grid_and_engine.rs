use hermes_rs::engine::{
    build_sectors, engine_snapshot_due, is_output_step, resumed_step, sends_initial_snapshot,
    species_seed, FieldSectorInput, KineticWidth, SectorChoice, StrangClock,
};
use hermes_rs::grid::{cube, lattice_coordinates, lattice_index, Grid};

#[test]
fn wrap_index_is_periodic() {
    let g = Grid::new(8);
    assert_eq!(g.wrap_index(0), 0);
    assert_eq!(g.wrap_index(7), 7);
    assert_eq!(g.wrap_index(8), 0);
    assert_eq!(g.wrap_index(-1), 7);
    assert_eq!(g.wrap_index(-8), 0);
    assert_eq!(g.wrap_index(-9), 7);
    assert_eq!(g.wrap_index(17), 1);
    assert_eq!(g.wrap_index(isize::MIN), (isize::MIN).rem_euclid(8) as usize);
}

#[test]
fn cic_pair_wraps_both_cells() {
    let g = Grid::new(4);
    assert_eq!(g.cic_pair(-1), (3, 0));
    assert_eq!(g.cic_pair(3), (3, 0));
    assert_eq!(g.cic_pair(1), (1, 2));
}

#[test]
fn frequency_index_wraps_upper_half_negative() {
    let g = Grid::new(8);
    let got: Vec<i128> = (0..8).map(|m| g.frequency_index(m)).collect();
    assert_eq!(got, vec![0, 1, 2, 3, 4, -3, -2, -1]);
    let odd = Grid::new(5);
    let got: Vec<i128> = (0..5).map(|m| odd.frequency_index(m)).collect();
    assert_eq!(got, vec![0, 1, 2, -2, -1]);
}

#[test]
fn total_cells_is_cube() {
    assert_eq!(Grid::new(32).total_cells(), 32768);
    assert_eq!(cube(3), 27);
    assert_eq!(cube(0), 0);
}

#[test]
fn lattice_index_and_coordinates_roundtrip() {
    let k = 3;
    let mut n = 0;
    for m0 in 0..k {
        for m1 in 0..k {
            for m2 in 0..k {
                assert_eq!(lattice_index(m0, m1, m2, k), n);
                assert_eq!(lattice_coordinates(n, k), (m0, m1, m2));
                n += 1;
            }
        }
    }
    assert_eq!(lattice_coordinates(26, 3), (2, 2, 2));
}

#[test]
fn strang_clock_half_then_full() {
    let mut c = StrangClock::new();
    assert_eq!(c.kinetic_width(), KineticWidth::Half);
    assert_eq!(c.kinetic_width(), KineticWidth::Full);
    assert_eq!(c.kinetic_width(), KineticWidth::Full);
    assert_eq!(c.closing_width(), KineticWidth::Half);
}

#[test]
fn strang_total_kinetic_time() {
    // 1 + 2 + 2 + 2 + closing 1 = 8 half steps = 4 full steps.
    let mut c = StrangClock::new();
    let mut halves = 0;
    for _ in 0..4 {
        halves += match c.kinetic_width() {
            KineticWidth::Half => 1,
            KineticWidth::Full => 2,
        };
    }
    halves += 1;
    assert_eq!(halves, 8);
}

#[test]
fn output_steps() {
    assert!(is_output_step(10, 5, false));
    assert!(!is_output_step(11, 5, false));
    assert!(is_output_step(11, 5, true));
    assert!(!is_output_step(3, 0, false));
    assert!(is_output_step(0, 0, false));
    assert_eq!(engine_snapshot_due(7, 0, false), (true, false));
    assert_eq!(engine_snapshot_due(7, 2, false), (false, false));
    assert_eq!(engine_snapshot_due(7, 2, true), (true, true));
}

#[test]
fn resumed_runs() {
    assert_eq!(resumed_step(10, 0, ), 11);
    assert!(sends_initial_snapshot(0));
    assert!(!sends_initial_snapshot(3));
    assert_eq!(species_seed(42, 2), 44);
}

#[test]
fn sectors_follow_species() {
    let fields = vec![
        FieldSectorInput { name: "alpha".to_string(), has_self_interaction: false },
        FieldSectorInput { name: "beta".to_string(), has_self_interaction: true },
    ];
    let particles = vec!["dm".to_string()];
    let sectors = build_sectors(fields, particles);
    assert_eq!(sectors.len(), 3);
    match &sectors[0] {
        SectorChoice::Schrodinger(s) => assert_eq!(s.name(), "alpha"),
        _ => panic!("expected Schrodinger"),
    }
    match &sectors[1] {
        SectorChoice::GrossPitaevskii(s) => assert_eq!(s.name(), "beta"),
        _ => panic!("expected Gross-Pitaevskii"),
    }
    match &sectors[2] {
        SectorChoice::Particle(s) => assert_eq!(s.name(), "dm"),
        _ => panic!("expected particles"),
    }
}

#[test]
fn total_particle_count_sums_species() {
    assert_eq!(hermes_rs::engine::total_particle_count(&vec![]), 0);
    assert_eq!(hermes_rs::engine::total_particle_count(&vec![32768, 4096, 1]), 36865);
}

#[test]
fn run_snapshot_schedules() {
    assert_eq!(hermes_rs::engine::snapshot_steps(0, 7, 3), vec![0, 3, 6, 7]);
    assert_eq!(hermes_rs::engine::snapshot_steps(10, 5, 4), vec![12, 15]);
    assert_eq!(hermes_rs::engine::snapshot_steps(0, 3, 0), vec![0, 3]);
    assert_eq!(hermes_rs::engine::snapshot_steps(0, 0, 2), vec![0]);
    assert_eq!(hermes_rs::engine::snapshot_steps(5, 0, 2), Vec::<usize>::new());
}
