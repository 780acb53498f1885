//! Plane vectors with fixed-point components.

use vstd::prelude::*;
use crate::fixed::fx_in_range;

verus! {

/// A 2-vector of fixed-point scalars: positions, velocities, accelerations
/// and forces are all carried in this form.
#[derive(Clone, Copy, PartialEq, Eq, Structural, Debug)]
pub struct Vec2 {
    pub x: i64,
    pub y: i64,
}

/// Both components are in the representable range.
pub open spec fn vec2_in_range(v: Vec2) -> bool {
    fx_in_range(v.x as int) && fx_in_range(v.y as int)
}

impl Vec2 {
    /// The vector with the two given components.
    pub fn new(x: i64, y: i64) -> (r: Vec2)
        ensures
            r.x == x,
            r.y == y,
    {
        Vec2 { x, y }
    }
}

} // verus!
