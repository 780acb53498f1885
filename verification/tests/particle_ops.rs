//! Particle motion primitives and the injected random source.

use particle_life::fixed::SCALE;
use particle_life::particle::{Particle, DEFAULT_RADIUS};
use particle_life::rng::Lcg;
use particle_life::vec2::Vec2;

/// Integration order: the velocity takes up the acceleration first, and the
/// position then moves by the *updated* velocity; the accumulator is
/// cleared.
#[test]
fn integration_order() {
    let mut p = Particle::new(5 * SCALE, 7 * SCALE, SCALE, 0, 0);
    p.velocity = Vec2::new(SCALE, 0);
    p.acceleration = Vec2::new(SCALE, 0);
    p.move_particle(SCALE);
    assert_eq!(p.velocity, Vec2::new(2 * SCALE, 0));
    assert_eq!(p.position, Vec2::new(7 * SCALE, 7 * SCALE));
    assert_eq!(p.acceleration, Vec2::new(0, 0));
}

/// Forces accumulate: two applications add component-wise.
#[test]
fn forces_accumulate() {
    let mut p = Particle::new(0, 0, SCALE, 0, 0);
    p.apply_force(Vec2::new(100, -200));
    p.apply_force(Vec2::new(5, 8));
    assert_eq!(p.acceleration, Vec2::new(105, -192));
}

/// Repeated drag with a factor strictly inside (0, 1) strictly shrinks the
/// velocity magnitude toward zero and never flips a component's sign.
#[test]
fn drag_monotonically_decreases() {
    let mut p = Particle::new(0, 0, SCALE, 0, 0);
    p.velocity = Vec2::new(1000, -500);
    let mut last_x = p.velocity.x;
    let mut last_y = -p.velocity.y;
    for _ in 0..100 {
        p.apply_drag(900_000);
        assert!(p.velocity.x >= 0 && -p.velocity.y >= 0);
        if last_x > 0 {
            assert!(p.velocity.x < last_x);
        } else {
            assert_eq!(p.velocity.x, 0);
        }
        if last_y > 0 {
            assert!(-p.velocity.y < last_y);
        } else {
            assert_eq!(p.velocity.y, 0);
        }
        last_x = p.velocity.x;
        last_y = -p.velocity.y;
    }
    assert_eq!(p.velocity, Vec2::new(0, 0));
}

/// A full-unit factor retains the velocity exactly.
#[test]
fn drag_with_unit_factor_is_identity() {
    let mut p = Particle::new(0, 0, SCALE, 0, 0);
    p.velocity = Vec2::new(123_456, -654_321);
    p.apply_drag(SCALE);
    assert_eq!(p.velocity, Vec2::new(123_456, -654_321));
}

/// Distances come from the raw coordinate differences, rounded down.
#[test]
fn distance_is_euclidean_floor() {
    let a = Particle::new(0, 0, SCALE, 0, 0);
    let b = Particle::new(3 * SCALE, 4 * SCALE, SCALE, 0, 1);
    assert_eq!(a.get_distance_to_neighbor(&b), 5 * SCALE);
    assert_eq!(b.get_distance_to_neighbor(&a), 5 * SCALE);
    assert_eq!(a.get_distance_to_neighbor(&a), 0);
    let c = Particle::new(1, 1, SCALE, 0, 2);
    // sqrt(2) rounds down to 1
    assert_eq!(a.get_distance_to_neighbor(&c), 1);
}

/// The color generator clamps its draw into [0, 1] before scaling and
/// rounds down; draws strictly below one unit always give a valid class.
#[test]
fn generate_color_clamps_and_scales() {
    assert_eq!(Particle::generate_color(5, 0), 0);
    assert_eq!(Particle::generate_color(5, 199_999), 0);
    assert_eq!(Particle::generate_color(5, 200_000), 1);
    assert_eq!(Particle::generate_color(5, 999_999), 4);
    assert_eq!(Particle::generate_color(5, -123), 0);
    assert_eq!(Particle::generate_color(3, SCALE - 1), 2);
}

/// A new particle starts at rest with the given identity.
#[test]
fn new_particle_is_at_rest() {
    let p = Particle::new(17, -17, 3 * SCALE, 4, 9);
    assert_eq!(p.get_position(), Vec2::new(17, -17));
    assert_eq!(p.velocity, Vec2::new(0, 0));
    assert_eq!(p.acceleration, Vec2::new(0, 0));
    assert_eq!(p.get_color(), 4);
    assert_eq!(p.get_id(), 9);
    assert_eq!(p.radius, 3 * SCALE);
}

/// The injected generator is a pure function of its seed: equal seeds give
/// equal draws, and every draw is a fixed-point number in [0, 1).
#[test]
fn rng_is_deterministic_and_in_range() {
    let mut a = Lcg::new(42);
    let mut b = Lcg::new(42);
    for _ in 0..1000 {
        let x = a.next_unit();
        let y = b.next_unit();
        assert_eq!(x, y);
        assert!(0 <= x && x < SCALE);
    }
    let mut c = Lcg::new(43);
    let mut differs = false;
    let mut a2 = Lcg::new(42);
    for _ in 0..10 {
        if c.next_unit() != a2.next_unit() {
            differs = true;
        }
    }
    assert!(differs);
}

/// Random placement is a pure function of the generator state: position in
/// the unit square, color valid, the given identity, rest state.
#[test]
fn from_random_is_deterministic() {
    let mut r1 = Lcg::new(7);
    let mut r2 = Lcg::new(7);
    let p1 = Particle::from_random(3, 4, &mut r1);
    let p2 = Particle::from_random(3, 4, &mut r2);
    assert_eq!(p1, p2);
    assert!(0 <= p1.position.x && p1.position.x < SCALE);
    assert!(0 <= p1.position.y && p1.position.y < SCALE);
    assert!(p1.get_color() < 4);
    assert_eq!(p1.get_id(), 3);
    assert_eq!(p1.velocity, Vec2::new(0, 0));
    assert_eq!(p1.acceleration, Vec2::new(0, 0));
    assert_eq!(p1.radius, DEFAULT_RADIUS);
}
