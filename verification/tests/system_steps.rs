//! Whole-simulation behavior: construction, validation, ticks, snapshots.

use particle_life::fixed::SCALE;
use particle_life::particle::Particle;
use particle_life::system::{ConfigError, RulesMatrix, System, PARTICLE_SCALARS};
use particle_life::vec2::Vec2;

fn unit_matrix() -> RulesMatrix {
    RulesMatrix::from_values(1, vec![SCALE]).unwrap()
}

/// Degenerate parameters are rejected eagerly, each with its own error.
#[test]
fn constructor_rejects_degenerate_parameters() {
    let e = System::new(0, SCALE, SCALE, SCALE, 1, SCALE, 1).unwrap_err();
    assert_eq!(e, ConfigError::ZeroCount);
    let e = System::new(2, 0, SCALE, SCALE, 1, SCALE, 1).unwrap_err();
    assert_eq!(e, ConfigError::NonPositiveDt);
    let e = System::new(2, -SCALE, SCALE, SCALE, 1, SCALE, 1).unwrap_err();
    assert_eq!(e, ConfigError::NonPositiveDt);
    let e = System::new(2, SCALE, 0, SCALE, 1, SCALE, 1).unwrap_err();
    assert_eq!(e, ConfigError::NonPositiveFrictionHalfLife);
    let e = System::new(2, SCALE, SCALE, 0, 1, SCALE, 1).unwrap_err();
    assert_eq!(e, ConfigError::NonPositiveRMax);
    let e = System::new(2, SCALE, SCALE, SCALE, 0, SCALE, 1).unwrap_err();
    assert_eq!(e, ConfigError::ZeroColorClasses);
}

/// Explicit construction validates the particle set and the rule table.
#[test]
fn from_state_rejects_bad_state() {
    let e = System::from_state(vec![], unit_matrix(), SCALE, SCALE, SCALE, SCALE).unwrap_err();
    assert_eq!(e, ConfigError::ZeroCount);

    // a table whose value list does not match its dimension
    let bad = RulesMatrix { m: 2, values: vec![0, 0, 0] };
    let p0 = Particle::new(0, 0, SCALE, 0, 0);
    let e = System::from_state(vec![p0], bad, SCALE, SCALE, SCALE, SCALE).unwrap_err();
    assert_eq!(e, ConfigError::InvalidMatrix);

    // a coefficient beyond one unit
    let e = RulesMatrix::from_values(1, vec![SCALE + 1]).unwrap_err();
    assert_eq!(e, ConfigError::InvalidMatrix);

    // an identifier that does not match its index
    let p_wrong_id = Particle::new(0, 0, SCALE, 0, 5);
    let e = System::from_state(vec![p_wrong_id], unit_matrix(), SCALE, SCALE, SCALE, SCALE)
        .unwrap_err();
    assert_eq!(e, ConfigError::InvalidParticle);

    // a color outside the rule table
    let p_bad_color = Particle::new(0, 0, SCALE, 1, 0);
    let e = System::from_state(vec![p_bad_color], unit_matrix(), SCALE, SCALE, SCALE, SCALE)
        .unwrap_err();
    assert_eq!(e, ConfigError::InvalidParticle);

    // a stale acceleration accumulator: the accumulator is zero at the
    // start of every force-accumulation phase, so it may not enter nonzero
    let mut p_stale = Particle::new(0, 0, SCALE, 0, 0);
    p_stale.acceleration = Vec2::new(1, 0);
    let e = System::from_state(vec![p_stale], unit_matrix(), SCALE, SCALE, SCALE, SCALE)
        .unwrap_err();
    assert_eq!(e, ConfigError::InvalidParticle);
}

/// A single particle accumulates no force from itself: a tick leaves a
/// resting lone particle exactly where it was.
#[test]
fn single_particle_is_unmoved() {
    let p = Particle::new(500_000, 250_000, SCALE, 0, 0);
    let mut s =
        System::from_state(vec![p], unit_matrix(), SCALE, SCALE, 10 * SCALE, SCALE).unwrap();
    s.start();
    for _ in 0..5 {
        s.step();
    }
    let view = s.get_particles_state();
    assert_eq!(view[0], 500_000); // position x
    assert_eq!(view[1], 250_000); // position y
    assert_eq!(view[2], 0); // velocity x
    assert_eq!(view[3], 0); // velocity y
}

/// Two particles a tenth of the radius apart sit in the near field: each is
/// pushed away from the other with the same magnitude, symmetrically.
#[test]
fn two_particles_repel_symmetrically() {
    let a = Particle::new(0, 0, SCALE, 0, 0);
    let b = Particle::new(SCALE, 0, SCALE, 0, 1);
    // r_max = 10, so the normalized distance is 0.1 < 0.3: repulsion of
    // magnitude 2/3, scaled by force_factor * r_max = 10.
    let mut s =
        System::from_state(vec![a, b], unit_matrix(), SCALE, SCALE, 10 * SCALE, SCALE).unwrap();
    s.start();
    let view = s.get_particles_state();
    // fixed-point 2/3 of a unit is 666_667 (rounded toward zero), times 10
    assert_eq!(view[2], -6_666_670); // velocity of the left particle: away, leftward
    assert_eq!(view[2 + PARTICLE_SCALARS], 6_666_670); // right particle: away, rightward
    assert_eq!(view[0], -6_666_670); // positions moved by exactly the new velocity
    assert_eq!(view[PARTICLE_SCALARS], SCALE + 6_666_670);
    assert_eq!(view[1], 0);
    assert_eq!(view[1 + PARTICLE_SCALARS], 0);
    // the displacements are mirror images
    assert_eq!(view[0], -(view[PARTICLE_SCALARS] - SCALE));
}

/// Neighbors at or beyond the cutoff radius contribute nothing, and
/// coincident particles are skipped rather than dividing by zero.
#[test]
fn far_and_coincident_neighbors_are_ignored() {
    let a = Particle::new(0, 0, SCALE, 0, 0);
    let b = Particle::new(2 * SCALE, 0, SCALE, 0, 1);
    let mut s =
        System::from_state(vec![a, b], unit_matrix(), SCALE, SCALE, SCALE, SCALE).unwrap();
    s.start();
    let view = s.get_particles_state();
    assert_eq!(&view[0..4], &[0, 0, 0, 0]);
    assert_eq!(&view[7..11], &[2 * SCALE, 0, 0, 0]);

    let c = Particle::new(5, 5, SCALE, 0, 0);
    let d = Particle::new(5, 5, SCALE, 0, 1);
    let mut s2 =
        System::from_state(vec![c, d], unit_matrix(), SCALE, SCALE, SCALE, SCALE).unwrap();
    s2.start();
    let view2 = s2.get_particles_state();
    assert_eq!(&view2[0..4], &[5, 5, 0, 0]);
    assert_eq!(&view2[7..11], &[5, 5, 0, 0]);
}

/// The core advances on every `step` call; `start` and `pause` only toggle
/// the advisory flag that a host's drive loop reads to decide whether to
/// keep calling.
#[test]
fn step_always_advances_and_the_flag_is_advisory() {
    let a = Particle::new(0, 0, SCALE, 0, 0);
    let b = Particle::new(SCALE, 0, SCALE, 0, 1);
    let mut s =
        System::from_state(vec![a, b], unit_matrix(), SCALE, SCALE, 10 * SCALE, SCALE).unwrap();
    assert!(!s.running);
    let before = s.get_particles_state();
    s.step(); // advances even though the flag is down
    let after_one = s.get_particles_state();
    assert_ne!(after_one, before);
    s.start(); // raises the flag and ticks once
    assert!(s.running);
    let after_two = s.get_particles_state();
    assert_ne!(after_two, after_one);
    s.pause(); // lowers the flag and nothing else
    assert!(!s.running);
    assert_eq!(s.get_particles_state(), after_two);
    s.step(); // pausing is the host's business, not the core's
    assert_ne!(s.get_particles_state(), after_two);
}

/// With every input fixed (seed included), construction and repeated ticks
/// retrace exactly the same trajectory.
#[test]
fn trajectories_are_deterministic() {
    let mut s1 = System::new(8, SCALE / 50, SCALE / 2, SCALE / 5, 3, 5 * SCALE, 12345).unwrap();
    let mut s2 = System::new(8, SCALE / 50, SCALE / 2, SCALE / 5, 3, 5 * SCALE, 12345).unwrap();
    assert_eq!(s1.get_particles_state(), s2.get_particles_state());
    s1.start();
    s2.start();
    for _ in 0..20 {
        s1.step();
        s2.step();
        assert_eq!(s1.get_particles_state(), s2.get_particles_state());
    }
    // a different seed places the population differently
    let s3 = System::new(8, SCALE / 50, SCALE / 2, SCALE / 5, 3, 5 * SCALE, 54321).unwrap();
    assert_ne!(s1.get_particles_state(), s3.get_particles_state());
}

/// Random construction fills the population densely: identifiers match the
/// order, colors index the rule table, positions lie in the unit square.
#[test]
fn random_construction_is_well_formed() {
    let s = System::new(10, SCALE, SCALE, SCALE, 3, SCALE, 99).unwrap();
    assert_eq!(s.get_m(), 3);
    assert_eq!(System::get_particle_size(), PARTICLE_SCALARS);
    assert_eq!(s.get_particles_memory_length(), 10 * PARTICLE_SCALARS);
    let view = s.get_particles_state();
    assert_eq!(view.len(), 10 * PARTICLE_SCALARS);
    for i in 0..10 {
        let rec = &view[i * PARTICLE_SCALARS..(i + 1) * PARTICLE_SCALARS];
        assert!(0 <= rec[0] && rec[0] < SCALE); // x in [0, 1)
        assert!(0 <= rec[1] && rec[1] < SCALE); // y in [0, 1)
        assert_eq!(rec[2], 0); // at rest
        assert_eq!(rec[3], 0);
        assert!(0 <= rec[4] && rec[4] < 3); // a valid color class
        assert_eq!(rec[5], i as i64); // dense identifiers
    }
}

/// The freshly drawn rule table is within one unit everywhere and is a pure
/// function of the seed.
#[test]
fn rule_matrix_construction_is_bounded_and_deterministic() {
    let mut r1 = particle_life::rng::Lcg::new(5);
    let mut r2 = particle_life::rng::Lcg::new(5);
    let m1 = RulesMatrix::new(3, &mut r1);
    let m2 = RulesMatrix::new(3, &mut r2);
    for i in 0..3u32 {
        for j in 0..3u32 {
            let v = m1.get_value(i, j);
            assert_eq!(v, m2.get_value(i, j));
            assert!(-SCALE <= v && v <= SCALE);
        }
    }
}

/// Looking a coefficient up finds exactly what the table was built from,
/// row-major.
#[test]
fn rule_matrix_lookup_is_row_major() {
    let m = RulesMatrix::from_values(2, vec![10, -20, 30, -40]).unwrap();
    assert_eq!(m.get_value(0, 0), 10);
    assert_eq!(m.get_value(0, 1), -20);
    assert_eq!(m.get_value(1, 0), 30);
    assert_eq!(m.get_value(1, 1), -40);
}
