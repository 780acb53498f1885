//! The radial force law and the derived friction factor, on exact values.

use particle_life::fixed::SCALE;
use particle_life::system::{System, BETA};

/// Beyond the cutoff the law is exactly zero, whatever the coefficient.
#[test]
fn far_field_cutoff_returns_zero() {
    for rv in [-SCALE, -1, 0, 1, 250_000, SCALE] {
        assert_eq!(System::get_rule_force(SCALE, rv), 0);
        assert_eq!(System::get_rule_force(SCALE + 1, rv), 0);
        assert_eq!(System::get_rule_force(2 * SCALE, rv), 0);
        assert_eq!(System::get_rule_force(i64::MAX / SCALE, rv), 0);
    }
}

/// At the near-field boundary both branches give exactly zero, and the
/// values just on either side are within a few fixed-point steps of zero.
#[test]
fn force_law_continuous_at_boundary() {
    for rv in [-SCALE, -1, 0, 1, SCALE] {
        assert_eq!(System::get_rule_force(BETA, rv), 0);
    }
    // one step below the boundary: the near-field branch, just under zero
    assert_eq!(System::get_rule_force(BETA - 1, SCALE), -4);
    // one step above: the tent branch, just over zero for a unit coefficient
    assert_eq!(System::get_rule_force(BETA + 1, SCALE), 3);
    assert_eq!(System::get_rule_force(BETA + 1, -SCALE), -3);
}

/// The near field repels regardless of the rule coefficient: at a tenth of
/// the radius the magnitude is two thirds of a unit (rounded toward zero).
#[test]
fn near_field_repulsion_exact() {
    // 0.1 / 0.3 - 1 == -2/3
    for rv in [-SCALE, 0, SCALE] {
        assert_eq!(System::get_rule_force(100_000, rv), -666_667);
    }
    // at zero distance the repulsion is exactly minus one unit
    assert_eq!(System::get_rule_force(0, SCALE), -SCALE);
    // half way to the boundary: 0.15 / 0.3 - 1 == -1/2
    assert_eq!(System::get_rule_force(150_000, 0), -500_000);
}

/// The tent kernel peaks at the midpoint between boundary and cutoff with
/// exactly the rule coefficient, and is scaled linearly by it.
#[test]
fn tent_kernel_peak_and_scaling() {
    let peak = (SCALE + BETA) / 2;
    assert_eq!(System::get_rule_force(peak, SCALE), SCALE);
    assert_eq!(System::get_rule_force(peak, -500_000), -500_000);
    assert_eq!(System::get_rule_force(peak, 0), 0);
    // half way up the rising flank of the tent: half the coefficient
    let mid = BETA + (SCALE - BETA) / 4;
    assert_eq!(System::get_rule_force(mid, SCALE), 500_000);
}

/// The retention factor is exactly one half when the step equals the
/// half-life, whatever their common value.
#[test]
fn friction_factor_half_at_half_life() {
    assert_eq!(System::get_friction_factor(SCALE, SCALE), SCALE / 2);
    assert_eq!(System::get_friction_factor(123_456, 123_456), SCALE / 2);
    assert_eq!(System::get_friction_factor(7, 7), SCALE / 2);
}

/// Integer multiples of the half-life halve the retention exactly per
/// multiple; a tiny step retains almost everything.
#[test]
fn friction_factor_at_integer_exponents() {
    assert_eq!(System::get_friction_factor(2 * SCALE, SCALE), SCALE / 4);
    assert_eq!(System::get_friction_factor(3 * SCALE, SCALE), SCALE / 8);
    let r = System::get_friction_factor(1, SCALE);
    assert!(999_000 <= r && r <= SCALE);
}

/// Between integer exponents the retention tracks `0.5^(dt/half_life)` to
/// fixed-point precision: half a half-life retains `sqrt(1/2)`, a quarter
/// retains the fourth root, and so on.
#[test]
fn friction_factor_tracks_the_power() {
    // 2^(-1/2) = 0.70710678...: the exact integer square root of one half
    assert_eq!(System::get_friction_factor(SCALE / 2, SCALE), 707_106);
    // 2^(-3/2) = 0.35355339...
    assert_eq!(System::get_friction_factor(3 * SCALE / 2, SCALE), 353_553);
    // 2^(-1/4) = 0.84089641...
    assert_eq!(System::get_friction_factor(SCALE / 4, SCALE), 840_895);
    // velocity halves every half-life whatever the step: two ticks of half
    // a half-life compose to one half, up to fixed-point rounding
    let r = System::get_friction_factor(SCALE / 2, SCALE);
    let two_ticks = r * r / SCALE;
    assert!((two_ticks - SCALE / 2).abs() <= 2);
}
