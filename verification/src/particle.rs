//! A single particle: kinematic state, identity, and motion primitives.

use vstd::prelude::*;
use crate::fixed::{
    SCALE, FX_MAX, fx_in_range, fx_clamp, fx_abs, fx_mul, dtz, sqrt_floor, sat_add, fp_mul, isqrt,
    lemma_abs_mul,
};
use crate::rng::{Lcg, lcg_next_s, unit_of};
use crate::vec2::{Vec2, vec2_in_range};

verus! {

/// Largest admitted number of color classes.
pub const MAX_COLORS: usize = 4096;

/// Display radius given to randomly placed particles: three units.
pub const DEFAULT_RADIUS: i64 = 3_000_000;

/// A colored point particle.  `position`, `velocity` and `acceleration` are
/// fixed-point plane vectors; `radius` is display-only and never read by the
/// physics; `color` indexes the rule matrix; `id` is unique within a
/// simulation.
#[derive(Clone, Copy, PartialEq, Eq, Structural, Debug)]
pub struct Particle {
    pub position: Vec2,
    pub velocity: Vec2,
    pub acceleration: Vec2,
    pub radius: i64,
    pub color: u32,
    pub id: u32,
}

/// Squared Euclidean distance between two particles' positions.
pub open spec fn dist_sq(p: Particle, q: Particle) -> int {
    let dx = p.position.x - q.position.x;
    let dy = p.position.y - q.position.y;
    dx * dx + dy * dy
}

/// Euclidean distance between two particles' positions, rounded down.
pub open spec fn dist_s(p: Particle, q: Particle) -> int {
    sqrt_floor(dist_sq(p, q))
}

/// A particle one integration step further on: velocity first takes up the
/// accumulated acceleration, then the position advances by the new velocity
/// times the step, and the accumulator is cleared.  This order is
/// load-bearing: the position moves by the *updated* velocity.
pub open spec fn moved_particle(p: Particle, dt: int) -> Particle {
    let vx = fx_clamp(p.velocity.x + p.acceleration.x);
    let vy = fx_clamp(p.velocity.y + p.acceleration.y);
    Particle {
        velocity: Vec2 { x: vx as i64, y: vy as i64 },
        position: Vec2 {
            x: fx_clamp(p.position.x + fx_mul(vx, dt)) as i64,
            y: fx_clamp(p.position.y + fx_mul(vy, dt)) as i64,
        },
        acceleration: Vec2 { x: 0, y: 0 },
        ..p
    }
}

/// The color class cut from a unit draw: the draw is clamped into `[0, 1]`
/// and scaled by the class count, rounding down.
pub open spec fn color_of(m: int, u: int) -> int {
    let c = if u < 0 {
        0
    } else if u > SCALE {
        SCALE as int
    } else {
        u
    };
    c * m / (SCALE as int)
}

/// The particle built from three consecutive draws of a generator seeded in
/// state `s`: position uniform in the unit square, then a color class from a
/// third draw, with zero velocity and acceleration.
pub open spec fn particle_from(id: u32, m: int, s: u64) -> Particle {
    let s1 = lcg_next_s(s);
    let s2 = lcg_next_s(s1);
    let s3 = lcg_next_s(s2);
    Particle {
        position: Vec2 { x: unit_of(s1) as i64, y: unit_of(s2) as i64 },
        velocity: Vec2 { x: 0, y: 0 },
        acceleration: Vec2 { x: 0, y: 0 },
        radius: DEFAULT_RADIUS,
        color: color_of(m, unit_of(s3)) as u32,
        id,
    }
}

impl Particle {
    /// All kinematic scalars are within the representable range.
    pub open spec fn wf(self) -> bool {
        &&& vec2_in_range(self.position)
        &&& vec2_in_range(self.velocity)
        &&& vec2_in_range(self.acceleration)
        &&& fx_in_range(self.radius as int)
    }

    /// A particle at the given position, with zero velocity and
    /// acceleration.
    pub fn new(x: i64, y: i64, radius: i64, color: u32, id: u32) -> (r: Particle)
        requires
            fx_in_range(x as int),
            fx_in_range(y as int),
            fx_in_range(radius as int),
        ensures
            r == (Particle {
                position: Vec2 { x, y },
                velocity: Vec2 { x: 0, y: 0 },
                acceleration: Vec2 { x: 0, y: 0 },
                radius,
                color,
                id,
            }),
            r.wf(),
    {
        Particle {
            position: Vec2 { x, y },
            velocity: Vec2 { x: 0, y: 0 },
            acceleration: Vec2 { x: 0, y: 0 },
            radius,
            color,
            id,
        }
    }

    /// Integrate one step of size `dt` (see [`moved_particle`]).
    pub fn move_particle(&mut self, dt: i64)
        requires
            old(self).wf(),
            0 < dt <= FX_MAX,
        ensures
            *final(self) == moved_particle(*old(self), dt as int),
            final(self).wf(),
    {
        let vx = sat_add(self.velocity.x, self.acceleration.x);
        let vy = sat_add(self.velocity.y, self.acceleration.y);
        let px = sat_add(self.position.x, fp_mul(vx, dt));
        let py = sat_add(self.position.y, fp_mul(vy, dt));
        self.velocity = Vec2 { x: vx, y: vy };
        self.position = Vec2 { x: px, y: py };
        self.acceleration = Vec2 { x: 0, y: 0 };
    }

    /// Scale the velocity by a retention factor of at most one unit: each
    /// component is the exact fixed-point product, so drag can only shrink
    /// a velocity component's magnitude.
    pub fn apply_drag(&mut self, drag_factor: i64)
        requires
            old(self).wf(),
            0 <= drag_factor <= SCALE,
        ensures
            final(self).velocity.x == dtz(old(self).velocity.x * drag_factor, SCALE as int),
            final(self).velocity.y == dtz(old(self).velocity.y * drag_factor, SCALE as int),
            fx_abs(final(self).velocity.x as int) <= fx_abs(old(self).velocity.x as int),
            fx_abs(final(self).velocity.y as int) <= fx_abs(old(self).velocity.y as int),
            *final(self) == (Particle { velocity: final(self).velocity, ..*old(self) }),
            final(self).wf(),
    {
        let vx = fp_mul(self.velocity.x, drag_factor);
        let vy = fp_mul(self.velocity.y, drag_factor);
        self.velocity = Vec2 { x: vx, y: vy };
    }

    /// Accumulate a force into the acceleration, component-wise and
    /// saturating.  May be called many times per tick.
    pub fn apply_force(&mut self, force: Vec2)
        requires
            old(self).wf(),
            vec2_in_range(force),
        ensures
            final(self).acceleration.x == fx_clamp(old(self).acceleration.x + force.x),
            final(self).acceleration.y == fx_clamp(old(self).acceleration.y + force.y),
            *final(self) == (Particle { acceleration: final(self).acceleration, ..*old(self) }),
            final(self).wf(),
    {
        let ax = sat_add(self.acceleration.x, force.x);
        let ay = sat_add(self.acceleration.y, force.y);
        self.acceleration = Vec2 { x: ax, y: ay };
    }

    /// Euclidean distance to a neighbor, computed from the raw coordinate
    /// differences and rounded down.
    pub fn get_distance_to_neighbor(&self, neighbor: &Particle) -> (r: i64)
        requires
            self.wf(),
            neighbor.wf(),
        ensures
            r == dist_s(*self, *neighbor),
            0 <= r,
            r as int <= 3 * (FX_MAX as int),
            dist_sq(*self, *neighbor) < (r + 1) * (r + 1),
            r * r <= dist_sq(*self, *neighbor),
    {
        let dx: i64 = self.position.x - neighbor.position.x;
        let dy: i64 = self.position.y - neighbor.position.y;
        let mx: u128 = if dx < 0 {
            (-dx) as u128
        } else {
            dx as u128
        };
        let my: u128 = if dy < 0 {
            (-dy) as u128
        } else {
            dy as u128
        };
        proof {
            assert((mx as int) * (mx as int) <= 4 * (FX_MAX as int) * (FX_MAX as int)
                && (my as int) * (my as int) <= 4 * (FX_MAX as int) * (FX_MAX as int))
                by (nonlinear_arith)
                requires
                    0 <= mx as int <= 2 * (FX_MAX as int),
                    0 <= my as int <= 2 * (FX_MAX as int),
            ;
            lemma_abs_mul(dx as int, dx as int);
            lemma_abs_mul(dy as int, dy as int);
            assert(dx as int * (dx as int) >= 0 && dy as int * (dy as int) >= 0)
                by (nonlinear_arith);
        }
        let sq: u128 = mx * mx + my * my;
        let r: u64 = isqrt(sq);
        proof {
            assert(sq == dist_sq(*self, *neighbor));
            assert(r <= 3_000_000_000_000_000_000) by (nonlinear_arith)
                requires
                    (r as int) * (r as int) <= sq as int,
                    sq as int <= 8 * (FX_MAX as int) * (FX_MAX as int),
                    r >= 0,
            ;
        }
        r as i64
    }

    /// The particle's position.
    pub fn get_position(&self) -> (r: Vec2)
        ensures
            r == self.position,
    {
        self.position
    }

    /// The particle's color class.
    pub fn get_color(&self) -> (r: u32)
        ensures
            r == self.color,
    {
        self.color
    }

    /// The particle's identifier.
    pub fn get_id(&self) -> (r: u32)
        ensures
            r == self.id,
    {
        self.id
    }

    /// The color class cut from a unit draw (see [`color_of`]): a draw
    /// strictly below one unit always yields a valid class index.
    pub fn generate_color(m: usize, input_value: i64) -> (r: u32)
        requires
            0 < m <= MAX_COLORS,
        ensures
            r == color_of(m as int, input_value as int),
            r <= m,
            input_value < SCALE ==> r < m,
    {
        let c: i64 = if input_value < 0 {
            0
        } else if input_value > SCALE {
            SCALE
        } else {
            input_value
        };
        proof {
            assert((c as int) * (m as int) <= (SCALE as int) * (MAX_COLORS as int))
                by (nonlinear_arith)
                requires
                    0 <= c as int <= SCALE as int,
                    0 < m as int <= MAX_COLORS as int,
            ;
        }
        let prod: u64 = (c as u64) * (m as u64);
        let q: u64 = prod / (SCALE as u64);
        proof {
            assert((c as int) * (m as int) <= (SCALE as int) * (m as int)) by (nonlinear_arith)
                requires
                    0 <= c as int <= SCALE as int,
                    0 < m as int,
            ;
            vstd::arithmetic::div_mod::lemma_multiply_divide_le(
                prod as int,
                SCALE as int,
                m as int,
            );
            if c < SCALE {
                assert((c as int) * (m as int) < (SCALE as int) * (m as int)) by (nonlinear_arith)
                    requires
                        0 <= (c as int) && (c as int) < SCALE as int,
                        0 < m as int,
                ;
                vstd::arithmetic::div_mod::lemma_multiply_divide_lt(
                    prod as int,
                    SCALE as int,
                    m as int,
                );
            }
        }
        q as u32
    }

    /// A particle placed uniformly at random in the unit square, with a
    /// uniformly drawn color class, from three draws of the injected
    /// generator (see [`particle_from`]).
    pub fn from_random(id: u32, m: usize, rng: &mut Lcg) -> (r: Particle)
        requires
            0 < m <= MAX_COLORS,
        ensures
            r == particle_from(id, m as int, old(rng).state),
            final(rng).state == lcg_next_s(lcg_next_s(lcg_next_s(old(rng).state))),
            r.wf(),
            r.color < m,
    {
        let x: i64 = rng.next_unit();
        let y: i64 = rng.next_unit();
        let u: i64 = rng.next_unit();
        let color: u32 = Self::generate_color(m, u);
        let radius: i64 = DEFAULT_RADIUS;
        Self::new(x, y, radius, color, id)
    }
}

} // verus!
