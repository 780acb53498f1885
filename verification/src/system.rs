//! The simulation: a particle population, a color-interaction rule table,
//! and the two-phase per-tick update.

use vstd::prelude::*;
use crate::fixed::{
    SCALE, FX_MAX, fx_in_range, fx_clamp, fx_abs, fx_mul, dtz, sat_add, fp_mul, fp_ratio,
    half_pow, friction_factor_s, lemma_abs_mul, lemma_sqrt_floor_lower,
};
use crate::particle::{
    Particle, particle_from, moved_particle, dist_s, dist_sq, MAX_COLORS,
};
use crate::rng::{Lcg, lcg_next_s, lcg_iter, unit_of};
use crate::vec2::{Vec2, vec2_in_range};

verus! {

/// Near-field boundary of the force law: `0.3` of the normalized
/// interaction radius.
pub const BETA: i64 = 300_000;

/// Largest admitted population.
pub const MAX_COUNT: usize = 1_000_000;

/// Scalars per particle record in the flat state snapshot.
pub const PARTICLE_SCALARS: usize = 7;

/// A rejected construction: the reason a parameter set cannot form a
/// simulation.
#[derive(Clone, Copy, PartialEq, Eq, Structural, Debug)]
pub enum ConfigError {
    /// The population is empty.
    ZeroCount,
    /// The integration time step is not positive.
    NonPositiveDt,
    /// The friction half-life is not positive.
    NonPositiveFrictionHalfLife,
    /// The interaction cutoff radius is not positive.
    NonPositiveRMax,
    /// There are no color classes.
    ZeroColorClasses,
    /// A rule matrix whose shape or entries do not fit the simulation.
    InvalidMatrix,
    /// A particle with an out-of-range scalar, a color outside the rule
    /// matrix, or an identifier that does not match its index.
    InvalidParticle,
}

/// The M×M table of interaction coefficients: entry `(i, j)` governs the
/// force a neighbor of color `j` exerts on a particle of color `i`.  Entries
/// lie in `[-1, 1]` (fixed-point) and never change after construction.
#[derive(Debug)]
pub struct RulesMatrix {
    /// Number of color classes: the table is `m` by `m`.
    pub m: usize,
    /// The entries, row-major: `(i, j)` is at `i * m + j`.
    pub values: Vec<i64>,
}

/// The matrix entry drawn `k` draws after seed state `s`: uniform in
/// `[-1, 1)` (fixed point).
pub open spec fn entry_from(s: u64, k: nat) -> int {
    2 * unit_of(lcg_iter(s, k + 1)) - SCALE
}

impl RulesMatrix {
    /// The table is square and every coefficient is within one unit in
    /// magnitude.
    pub open spec fn wf(self) -> bool {
        &&& self.m <= MAX_COLORS
        &&& self.values@.len() == self.m * self.m
        &&& forall|k: int|
            0 <= k < self.values@.len() ==> -(SCALE as int) <= #[trigger] self.values@[k]
                <= SCALE as int
    }

    /// The coefficient governing the force a neighbor of color `j` exerts
    /// on a particle of color `i`.
    pub open spec fn rule_at(self, i: int, j: int) -> int {
        self.values@[i * self.m + j] as int
    }

    /// An `m` by `m` table with every entry drawn independently and
    /// uniformly from `[-1, 1)` (fixed point) out of the injected
    /// generator.
    pub fn new(m: usize, rng: &mut Lcg) -> (r: RulesMatrix)
        requires
            m <= MAX_COLORS,
        ensures
            r.wf(),
            r.m == m,
            r.values@.len() == m * m,
            final(rng).state == lcg_iter(old(rng).state, (m * m) as nat),
            forall|k: int|
                0 <= k < m * m ==> #[trigger] r.values@[k] == entry_from(
                    old(rng).state,
                    k as nat,
                ),
    {
        proof {
            assert((m as int) * (m as int) <= (MAX_COLORS as int) * (MAX_COLORS as int))
                by (nonlinear_arith)
                requires
                    0 <= m as int <= MAX_COLORS as int,
            ;
        }
        let total: usize = m * m;
        let mut values: Vec<i64> = Vec::new();
        let ghost s0 = rng.state;
        let mut k: usize = 0;
        while k < total
            invariant
                k <= total,
                total == m * m,
                values@.len() == k,
                rng.state == lcg_iter(s0, k as nat),
                forall|idx: int|
                    0 <= idx < k ==> #[trigger] values@[idx] == entry_from(s0, idx as nat),
            decreases total - k,
        {
            let u: i64 = rng.next_unit();
            proof {
                assert(lcg_iter(s0, k as nat + 1) == lcg_next_s(lcg_iter(s0, k as nat)));
            }
            values.push(2 * u - SCALE);
            k = k + 1;
        }
        RulesMatrix { m, values }
    }

    /// A table built from explicit coefficients: accepted exactly when the
    /// value list is `m` by `m` and every entry is within one unit.
    pub fn from_values(m: usize, values: Vec<i64>) -> (r: Result<RulesMatrix, ConfigError>)
        requires
            m <= MAX_COLORS,
        ensures
            r matches Ok(mat) ==> {
                &&& mat.wf()
                &&& mat.m == m
                &&& mat.values@ == values@
            },
            (r is Ok) <==> (values@.len() == m * m && forall|k: int|
                0 <= k < values@.len() ==> -(SCALE as int) <= #[trigger] values@[k]
                    <= SCALE as int),
            (r is Err) ==> r == Err::<RulesMatrix, ConfigError>(ConfigError::InvalidMatrix),
    {
        proof {
            assert((m as int) * (m as int) <= (MAX_COLORS as int) * (MAX_COLORS as int))
                by (nonlinear_arith)
                requires
                    0 <= m as int <= MAX_COLORS as int,
            ;
        }
        let total: usize = m * m;
        if values.len() != total {
            return Err(ConfigError::InvalidMatrix);
        }
        let mut k: usize = 0;
        while k < total
            invariant
                k <= total,
                values@.len() == total,
                forall|idx: int|
                    0 <= idx < k ==> -(SCALE as int) <= #[trigger] values@[idx] <= SCALE as int,
            decreases total - k,
        {
            let v = values[k];
            if v < -SCALE || v > SCALE {
                return Err(ConfigError::InvalidMatrix);
            }
            k = k + 1;
        }
        Ok(RulesMatrix { m, values })
    }

    /// Look up the coefficient for an ordered color pair.  Out-of-range
    /// colors are an invariant violation (colors are always produced in
    /// range), so they are excluded here rather than handled.
    pub fn get_value(&self, i_color: u32, j_color: u32) -> (r: i64)
        requires
            self.wf(),
            (i_color as int) < self.m,
            (j_color as int) < self.m,
        ensures
            r == self.rule_at(i_color as int, j_color as int),
            -(SCALE as int) <= r <= SCALE as int,
    {
        proof {
            assert((i_color as int) * (self.m as int) + (j_color as int) < (self.m as int) * (
            self.m as int)) by (nonlinear_arith)
                requires
                    0 <= (i_color as int) && (i_color as int) < self.m as int,
                    0 <= (j_color as int) && (j_color as int) < self.m as int,
            ;
            assert((self.m as int) * (self.m as int) <= (MAX_COLORS as int) * (
            MAX_COLORS as int)) by (nonlinear_arith)
                requires
                    0 <= self.m as int <= MAX_COLORS as int,
            ;
        }
        let idx: usize = (i_color as usize) * self.m + (j_color as usize);
        self.values[idx]
    }
}

/// The near-field branch of the force law: pure repulsion, zero exactly at
/// the boundary.
pub open spec fn near_force_s(nd: int) -> int {
    dtz(nd * (SCALE as int), BETA as int) - SCALE
}

/// The far-field branch of the force law: a triangular kernel peaking
/// midway between the boundary and the cutoff, zero at both, scaled by the
/// rule coefficient.
pub open spec fn tent_force_s(nd: int, rv: int) -> int {
    let t = 2 * nd - SCALE - BETA;
    let q = dtz(fx_abs(t) * (SCALE as int), (SCALE - BETA) as int);
    dtz(rv * (SCALE - q), SCALE as int)
}

/// The radial force law on the normalized distance `nd` and the rule
/// coefficient `rv`: repulsive below the near-field boundary, a scaled tent
/// up to the cutoff, and exactly zero from the cutoff on.
pub open spec fn rule_force_s(nd: int, rv: int) -> int {
    if nd < BETA {
        near_force_s(nd)
    } else if nd < SCALE {
        tent_force_s(nd, rv)
    } else {
        0
    }
}

/// The simulation: the particle population, the rule table, and the global
/// parameters of the force kernel and the integrator.
#[derive(Debug)]
pub struct System {
    /// Population size; always the length of `particles`.
    pub count: usize,
    /// Integration time step.
    pub dt: i64,
    /// Interaction cutoff radius.
    pub r_max: i64,
    /// Per-tick velocity retention fraction, derived from `dt` and the
    /// friction half-life at construction.
    pub friction_factor: i64,
    /// The color-interaction table.
    pub rule_matrix: RulesMatrix,
    /// Number of color classes.
    pub m: usize,
    /// Scale from the dimensionless kernel output to a physical force.
    pub force_factor: i64,
    /// The population, ordered by identifier.
    pub particles: Vec<Particle>,
    /// Whether the host's drive loop should keep ticking.  Advisory to the
    /// host: the core update never reads it, and `step` advances on every
    /// call.
    pub running: bool,
}

/// The force a neighbor `q` exerts on particle `p` under rule coefficient
/// `rv` and cutoff `r_max`: zero for coincident positions and beyond the
/// cutoff, and otherwise the force law's magnitude along the unit vector
/// from `p` toward `q`.
pub open spec fn pair_force(p: Particle, q: Particle, rv: int, r_max: int) -> (int, int) {
    let d = dist_s(p, q);
    if 0 < d && d < r_max {
        let nd = d * (SCALE as int) / r_max;
        let mag = rule_force_s(nd, rv);
        (
            dtz(dtz((q.position.x - p.position.x) * (SCALE as int), d) * mag, SCALE as int),
            dtz(dtz((q.position.y - p.position.y) * (SCALE as int), d) * mag, SCALE as int),
        )
    } else {
        (0, 0)
    }
}

/// The force accumulated on particle `i` from all neighbors of index below
/// `k`, the particle itself excluded.
pub open spec fn force_sum(s: System, i: int, k: int) -> (int, int)
    decreases k,
{
    if k <= 0 {
        (0, 0)
    } else {
        let rest = force_sum(s, i, k - 1);
        if k - 1 == i {
            rest
        } else {
            let pf = pair_force(
                s.particles@[i],
                s.particles@[k - 1],
                s.rule_matrix.rule_at(
                    s.particles@[i].color as int,
                    s.particles@[k - 1].color as int,
                ),
                s.r_max as int,
            );
            (rest.0 + pf.0, rest.1 + pf.1)
        }
    }
}

/// The total force applied to particle `i` in one tick: the accumulated
/// neighbor sum, scaled by `force_factor * r_max`.
pub open spec fn total_force(s: System, i: int) -> (int, int) {
    let raw = force_sum(s, i, s.particles@.len() as int);
    let k = fx_mul(s.force_factor as int, s.r_max as int);
    (fx_mul(raw.0, k), fx_mul(raw.1, k))
}

/// Particle `i` at the end of the force-accumulation phase: velocity
/// dragged by the friction factor, total force accumulated into the
/// acceleration, position untouched.
pub open spec fn forced_particle(s: System, i: int) -> Particle {
    let p = s.particles@[i];
    let tf = total_force(s, i);
    Particle {
        velocity: Vec2 {
            x: dtz(p.velocity.x * s.friction_factor, SCALE as int) as i64,
            y: dtz(p.velocity.y * s.friction_factor, SCALE as int) as i64,
        },
        acceleration: Vec2 {
            x: fx_clamp(p.acceleration.x + tf.0) as i64,
            y: fx_clamp(p.acceleration.y + tf.1) as i64,
        },
        ..p
    }
}

/// The whole population one tick on from state `s`: every force computed
/// against the pre-tick snapshot, then every particle integrated.
pub open spec fn stepped(s: System) -> Seq<Particle> {
    Seq::new(s.particles@.len(), |i: int| moved_particle(forced_particle(s, i), s.dt as int))
}

impl System {
    /// Structural soundness of a simulation: the population matches
    /// `count`, every particle is in range with a valid color and a dense
    /// identifier, the rule table is square over the color classes, and
    /// every parameter is within its range.
    pub open spec fn wf(self) -> bool {
        &&& 0 < self.count <= MAX_COUNT
        &&& self.particles@.len() == self.count
        &&& 0 < self.dt <= FX_MAX
        &&& 0 < self.r_max <= FX_MAX
        &&& 0 <= self.friction_factor <= SCALE
        &&& fx_in_range(self.force_factor as int)
        &&& 0 < self.m <= MAX_COLORS
        &&& self.rule_matrix.wf()
        &&& self.rule_matrix.m == self.m
        &&& forall|i: int| 0 <= i < self.particles@.len() ==> (#[trigger] self.particles@[i]).wf()
        &&& forall|i: int|
            0 <= i < self.particles@.len() ==> (#[trigger] self.particles@[i]).color < self.m
        &&& forall|i: int|
            0 <= i < self.particles@.len() ==> (#[trigger] self.particles@[i]).id == i
    }

    /// The force law (see [`rule_force_s`]): repulsive below the near-field
    /// boundary regardless of the rule coefficient, a coefficient-scaled
    /// tent kernel between boundary and cutoff, and exactly zero from the
    /// cutoff on.  The result never exceeds one unit in magnitude.
    pub fn get_rule_force(normalized_distance: i64, rule_value: i64) -> (r: i64)
        requires
            0 <= normalized_distance,
            -(SCALE as int) <= rule_value as int <= SCALE as int,
        ensures
            r == rule_force_s(normalized_distance as int, rule_value as int),
            -(SCALE as int) <= r as int <= SCALE as int,
            normalized_distance >= SCALE ==> r == 0,
    {
        let beta: i64 = BETA;
        if normalized_distance < beta {
            proof {
                assert((normalized_distance as int) * (SCALE as int) < (BETA as int) * (
                SCALE as int)) by (nonlinear_arith)
                    requires
                        0 <= (normalized_distance as int) && (normalized_distance as int) < (
                        BETA as int),
                        0 < SCALE as int,
                ;
            }
            let prod: u64 = (normalized_distance as u64) * (SCALE as u64);
            let q: u64 = prod / (BETA as u64);
            proof {
                vstd::arithmetic::div_mod::lemma_multiply_divide_lt(
                    prod as int,
                    BETA as int,
                    SCALE as int,
                );
                vstd::arithmetic::div_mod::lemma_div_pos_is_pos(prod as int, BETA as int);
            }
            (q as i64) - SCALE
        } else if normalized_distance < SCALE {
            let t: i64 = 2 * normalized_distance - SCALE - beta;
            let at: i64 = if t < 0 {
                -t
            } else {
                t
            };
            proof {
                assert(at as int == fx_abs(t as int));
                assert((at as int) * (SCALE as int) <= ((SCALE - BETA) as int) * (SCALE as int))
                    by (nonlinear_arith)
                    requires
                        0 <= at as int <= (SCALE - BETA) as int,
                        0 < SCALE as int,
                ;
            }
            let prod: u64 = (at as u64) * (SCALE as u64);
            let q: u64 = prod / ((SCALE - BETA) as u64);
            proof {
                vstd::arithmetic::div_mod::lemma_multiply_divide_le(
                    prod as int,
                    (SCALE - BETA) as int,
                    SCALE as int,
                );
                vstd::arithmetic::div_mod::lemma_div_pos_is_pos(prod as int, (SCALE - BETA) as int);
            }
            let tent: i64 = SCALE - (q as i64);
            fp_mul(rule_value, tent)
        } else {
            0
        }
    }

    /// Phase A of a tick: for every particle in index order, sum the
    /// pairwise forces from every other particle against the pre-tick
    /// position snapshot; then scale each total by `force_factor * r_max`,
    /// drag the particle's velocity, and accumulate the scaled total into
    /// its acceleration.  Positions do not change, and no force is read
    /// from a partially updated particle: the totals are computed for the
    /// whole population before any particle is touched.
    pub fn apply_forces(&mut self)
        requires
            old(self).wf(),
        ensures
            final(self).wf(),
            final(self).particles@.len() == old(self).particles@.len(),
            forall|i: int|
                0 <= i < old(self).particles@.len() ==> final(self).particles@[i]
                    == forced_particle(*old(self), i),
            *final(self) == (System { particles: final(self).particles, ..*old(self) }),
    {
        let ghost s0 = *self;
        let n: usize = self.particles.len();
        let mut forces: Vec<Vec2> = Vec::new();
        let mut i: usize = 0;
        while i < n
            invariant
                *self == s0,
                s0.wf(),
                n == s0.particles@.len(),
                i <= n,
                forces@.len() == i,
                forall|k: int|
                    0 <= k < i ==> ((#[trigger] forces@[k]).x == total_force(s0, k).0
                        && forces@[k].y == total_force(s0, k).1),
            decreases n - i,
        {
            let p: Particle = self.particles[i];
            let mut tx: i64 = 0;
            let mut ty: i64 = 0;
            let mut j: usize = 0;
            while j < n
                invariant
                    *self == s0,
                    s0.wf(),
                    n == s0.particles@.len(),
                    i < n,
                    j <= n,
                    p == s0.particles@[i as int],
                    (tx as int, ty as int) == force_sum(s0, i as int, j as int),
                    fx_abs(tx as int) <= j * (SCALE as int),
                    fx_abs(ty as int) <= j * (SCALE as int),
                decreases n - j,
            {
                let q: Particle = self.particles[j];
                let ghost txo = tx as int;
                let ghost tyo = ty as int;
                proof {
                    assert(s0.particles@[i as int].wf());
                    assert(s0.particles@[j as int].wf());
                }
                if p.get_id() != q.get_id() {
                    proof {
                        assert(i != j);
                    }
                    let dist: i64 = p.get_distance_to_neighbor(&q);
                    if dist > 0 && dist < self.r_max {
                        proof {
                            assert((dist as int) * (SCALE as int) < (s0.r_max as int) * (
                            SCALE as int)) by (nonlinear_arith)
                                requires
                                    0 < (dist as int) && (dist as int) < (s0.r_max as int),
                                    0 < SCALE as int,
                            ;
                            assert((dist as int) * (SCALE as int) <= 3 * (FX_MAX as int) * (
                            SCALE as int)) by (nonlinear_arith)
                                requires
                                    0 <= (dist as int) && (dist as int) <= 3 * (FX_MAX as int),
                                    0 < SCALE as int,
                            ;
                            vstd::arithmetic::div_mod::lemma_multiply_divide_lt(
                                (dist as int) * (SCALE as int),
                                s0.r_max as int,
                                SCALE as int,
                            );
                            vstd::arithmetic::div_mod::lemma_div_pos_is_pos(
                                (dist as int) * (SCALE as int),
                                s0.r_max as int,
                            );
                        }
                        let nd128: u128 = (dist as u128) * (SCALE as u128) / (self.r_max as u128);
                        let nd: i64 = nd128 as i64;
                        let rv: i64 = self.rule_matrix.get_value(p.get_color(), q.get_color());
                        let mag: i64 = Self::get_rule_force(nd, rv);
                        let rx: i64 = q.position.x - p.position.x;
                        let ry: i64 = q.position.y - p.position.y;
                        proof {
                            let dxp = (p.position.x - q.position.x) as int;
                            let dyp = (p.position.y - q.position.y) as int;
                            assert(dist_sq(p, q) == dxp * dxp + dyp * dyp);
                            assert((rx as int) * (rx as int) == dxp * dxp && (ry as int) * (
                            ry as int) == dyp * dyp) by (nonlinear_arith)
                                requires
                                    rx as int == -dxp,
                                    ry as int == -dyp,
                            ;
                            assert(dxp * dxp >= 0 && dyp * dyp >= 0) by (nonlinear_arith);
                            lemma_sqrt_floor_lower(dist_sq(p, q), rx as int);
                            lemma_sqrt_floor_lower(dist_sq(p, q), ry as int);
                        }
                        let ux: i64 = fp_ratio(rx, dist);
                        let uy: i64 = fp_ratio(ry, dist);
                        let fxc: i64 = fp_mul(ux, mag);
                        let fyc: i64 = fp_mul(uy, mag);
                        tx = tx + fxc;
                        ty = ty + fyc;
                        proof {
                            let pf = pair_force(
                                s0.particles@[i as int],
                                s0.particles@[j as int],
                                rv as int,
                                s0.r_max as int,
                            );
                            assert(pf.0 == fxc as int && pf.1 == fyc as int);
                        }
                    }
                }
                j = j + 1;
                proof {
                    assert((tx as int, ty as int) == force_sum(s0, i as int, j as int));
                }
            }
            let kf: i64 = fp_mul(self.force_factor, self.r_max);
            proof {
                assert(fx_in_range(tx as int) && fx_in_range(ty as int)) by {
                    assert(n * (SCALE as int) <= (MAX_COUNT as int) * (SCALE as int));
                }
            }
            let sx: i64 = fp_mul(tx, kf);
            let sy: i64 = fp_mul(ty, kf);
            forces.push(Vec2 { x: sx, y: sy });
            i = i + 1;
        }
        let mut out: Vec<Particle> = Vec::new();
        let mut b: usize = 0;
        while b < n
            invariant
                *self == s0,
                s0.wf(),
                n == s0.particles@.len(),
                forces@.len() == n,
                forall|k: int|
                    0 <= k < n ==> ((#[trigger] forces@[k]).x == total_force(s0, k).0
                        && forces@[k].y == total_force(s0, k).1),
                b <= n,
                out@.len() == b,
                forall|k: int| 0 <= k < b ==> #[trigger] out@[k] == forced_particle(s0, k),
                forall|k: int|
                    0 <= k < b ==> ((#[trigger] out@[k]).wf() && out@[k].color < s0.m
                        && out@[k].id == k),
            decreases n - b,
        {
            let mut p: Particle = self.particles[b];
            proof {
                assert(s0.particles@[b as int].wf());
                assert(fx_in_range(forces@[b as int].x as int) && fx_in_range(
                    forces@[b as int].y as int,
                ));
            }
            p.apply_drag(self.friction_factor);
            p.apply_force(forces[b]);
            proof {
                assert(p == forced_particle(s0, b as int));
            }
            out.push(p);
            b = b + 1;
        }
        self.particles = out;
    }

    /// One tick, executed on every call: Phase A accumulates every force
    /// against the pre-tick snapshot (see [`apply_forces`]), and only then
    /// Phase B integrates every particle, leaving every accumulator zero.
    /// Whether to keep calling is the driving loop's decision, outside this
    /// core.
    pub fn step(&mut self)
        requires
            old(self).wf(),
        ensures
            final(self).wf(),
            final(self).particles@ == stepped(*old(self)),
            forall|k: int|
                0 <= k < final(self).particles@.len() ==> (#[trigger] final(self).particles@[k]).acceleration
                    == (Vec2 { x: 0, y: 0 }),
            *final(self) == (System { particles: final(self).particles, ..*old(self) }),
    {
        let ghost s0 = *self;
        self.apply_forces();
        let ghost s1 = *self;
        let n: usize = self.particles.len();
        let mut out: Vec<Particle> = Vec::new();
        let mut i: usize = 0;
        while i < n
            invariant
                *self == s1,
                s1.wf(),
                s0.wf(),
                n == s1.particles@.len(),
                n == s0.particles@.len(),
                s1.dt == s0.dt,
                s1.m == s0.m,
                forall|k: int|
                    0 <= k < n ==> #[trigger] s1.particles@[k] == forced_particle(s0, k),
                i <= n,
                out@.len() == i,
                forall|k: int|
                    0 <= k < i ==> #[trigger] out@[k] == moved_particle(
                        forced_particle(s0, k),
                        s0.dt as int,
                    ),
                forall|k: int|
                    0 <= k < i ==> ((#[trigger] out@[k]).wf() && out@[k].color < s1.m
                        && out@[k].id == k),
            decreases n - i,
        {
            let mut p: Particle = self.particles[i];
            proof {
                assert(s1.particles@[i as int].wf());
                assert(s1.particles@[i as int].color < s1.m);
                assert(s1.particles@[i as int].id == i);
            }
            p.move_particle(self.dt);
            out.push(p);
            i = i + 1;
        }
        self.particles = out;
        proof {
            assert(self.particles@ =~= stepped(s0));
            assert forall|k: int|
                0 <= k < self.particles@.len() implies (#[trigger] self.particles@[k]).acceleration
                == (Vec2 { x: 0, y: 0 }) by {
                assert(self.particles@[k] == moved_particle(forced_particle(s0, k), s0.dt as int));
            }
        }
    }

    /// Set the host's running flag and advance one tick at once.
    pub fn start(&mut self)
        requires
            old(self).wf(),
        ensures
            final(self).wf(),
            final(self).running,
            final(self).particles@ == stepped(*old(self)),
            *final(self) == (System {
                running: true,
                particles: final(self).particles,
                ..*old(self)
            }),
    {
        self.running = true;
        let ghost s1 = *self;
        self.step();
        proof {
            lemma_stepped_congruent(s1, *old(self));
        }
    }

    /// Clear the host's running flag.  The flag is advisory: the host's
    /// drive loop reads it to decide whether to keep calling `step`; the
    /// core update itself never does.
    pub fn pause(&mut self)
        ensures
            *final(self) == (System { running: false, ..*old(self) }),
    {
        self.running = false;
    }

    /// The number of color classes.
    pub fn get_m(&self) -> (r: usize)
        ensures
            r == self.m,
    {
        self.m
    }

    /// A read-only snapshot of the whole population, flat and in identifier
    /// order: per particle, position, velocity, color, identifier and
    /// radius, as [`PARTICLE_SCALARS`] consecutive scalars.  The snapshot
    /// always reflects a fully integrated state, never a mid-tick one.
    pub fn get_particles_state(&self) -> (r: Vec<i64>)
        requires
            self.wf(),
        ensures
            r@.len() == self.particles@.len() * PARTICLE_SCALARS,
            forall|i: int|
                0 <= i < self.particles@.len() ==> {
                    let p = #[trigger] self.particles@[i];
                    &&& r@[i * 7] == p.position.x
                    &&& r@[i * 7 + 1] == p.position.y
                    &&& r@[i * 7 + 2] == p.velocity.x
                    &&& r@[i * 7 + 3] == p.velocity.y
                    &&& r@[i * 7 + 4] == p.color as i64
                    &&& r@[i * 7 + 5] == p.id as i64
                    &&& r@[i * 7 + 6] == p.radius
                },
    {
        let n: usize = self.particles.len();
        let mut r: Vec<i64> = Vec::new();
        let mut i: usize = 0;
        while i < n
            invariant
                n == self.particles@.len(),
                n <= MAX_COUNT,
                i <= n,
                r@.len() == i * 7,
                forall|k: int|
                    0 <= k < i ==> {
                        let p = #[trigger] self.particles@[k];
                        &&& r@[k * 7] == p.position.x
                        &&& r@[k * 7 + 1] == p.position.y
                        &&& r@[k * 7 + 2] == p.velocity.x
                        &&& r@[k * 7 + 3] == p.velocity.y
                        &&& r@[k * 7 + 4] == p.color as i64
                        &&& r@[k * 7 + 5] == p.id as i64
                        &&& r@[k * 7 + 6] == p.radius
                    },
            decreases n - i,
        {
            let p: Particle = self.particles[i];
            r.push(p.position.x);
            r.push(p.position.y);
            r.push(p.velocity.x);
            r.push(p.velocity.y);
            r.push(p.color as i64);
            r.push(p.id as i64);
            r.push(p.radius);
            i = i + 1;
        }
        r
    }

    /// Length of the flat snapshot that [`Self::get_particles_state`]
    /// yields: one record of [`PARTICLE_SCALARS`] scalars per particle.
    pub fn get_particles_memory_length(&self) -> (r: usize)
        requires
            self.wf(),
        ensures
            r == self.particles@.len() * PARTICLE_SCALARS,
    {
        self.particles.len() * PARTICLE_SCALARS
    }

    /// Scalars per particle record in the flat snapshot.
    pub fn get_particle_size() -> (r: usize)
        ensures
            r == PARTICLE_SCALARS,
    {
        PARTICLE_SCALARS
    }

    /// The per-tick velocity retention fraction for a time step and a
    /// friction half-life (see [`friction_factor_s`]): exactly one half
    /// when the step equals the half-life.
    pub fn get_friction_factor(dt: i64, friction_half_life: i64) -> (r: i64)
        requires
            0 < dt <= FX_MAX,
            0 < friction_half_life <= FX_MAX,
        ensures
            r == friction_factor_s(dt as int, friction_half_life as int),
            0 <= r <= SCALE,
            dt == friction_half_life ==> r == SCALE / 2,
    {
        half_pow(dt, friction_half_life)
    }
}

/// Every particle is in range, carries a color valid for `m` classes, has
/// the identifier of its own position, and brings an empty acceleration
/// accumulator: the accumulator is zero at the start of every
/// force-accumulation phase, so a particle set enters a simulation only
/// with nothing folded in.
pub open spec fn particles_ok(ps: Seq<Particle>, m: int) -> bool {
    forall|i: int|
        0 <= i < ps.len() ==> ((#[trigger] ps[i]).wf() && (ps[i].color as int) < m && ps[i].id
            == i && ps[i].acceleration == (Vec2 { x: 0, y: 0 }))
}

/// Whether a scalar is within the representable range.
fn in_range_i64(v: i64) -> (r: bool)
    ensures
        r == fx_in_range(v as int),
{
    -FX_MAX <= v && v <= FX_MAX
}

/// Whether a particle may stand at index `idx` of a simulation with `m`
/// color classes: in range, a valid color, the index as identifier, and an
/// empty acceleration accumulator.
fn check_particle(p: &Particle, idx: usize, m: usize) -> (r: bool)
    ensures
        r == (p.wf() && (p.color as int) < m as int && p.id as int == idx as int
            && p.acceleration == (Vec2 { x: 0, y: 0 })),
{
    in_range_i64(p.position.x) && in_range_i64(p.position.y) && in_range_i64(p.velocity.x)
        && in_range_i64(p.velocity.y) && in_range_i64(p.radius) && (p.color as usize) < m && (
    p.id as usize) == idx && p.acceleration.x == 0 && p.acceleration.y == 0
}

impl System {
    /// A simulation of `count` particles placed uniformly at random in the
    /// unit square with uniformly drawn colors, a fresh random rule table,
    /// and the friction factor derived from the step and the half-life.
    /// Every random draw comes from a generator seeded with `seed`.
    /// Degenerate parameters are rejected eagerly, each with its own error.
    pub fn new(
        count: usize,
        dt: i64,
        friction_half_life: i64,
        r_max: i64,
        m: usize,
        force_factor: i64,
        seed: u64,
    ) -> (r: Result<System, ConfigError>)
        requires
            count <= MAX_COUNT,
            m <= MAX_COLORS,
            dt <= FX_MAX,
            friction_half_life <= FX_MAX,
            r_max <= FX_MAX,
            fx_in_range(force_factor as int),
        ensures
            (r is Ok) <==> (count > 0 && dt > 0 && friction_half_life > 0 && r_max > 0 && m > 0),
            count == 0 ==> r == Err::<System, ConfigError>(ConfigError::ZeroCount),
            count > 0 && dt <= 0 ==> r == Err::<System, ConfigError>(ConfigError::NonPositiveDt),
            count > 0 && dt > 0 && friction_half_life <= 0 ==> r == Err::<System, ConfigError>(
                ConfigError::NonPositiveFrictionHalfLife,
            ),
            count > 0 && dt > 0 && friction_half_life > 0 && r_max <= 0 ==> r == Err::<
                System,
                ConfigError,
            >(ConfigError::NonPositiveRMax),
            count > 0 && dt > 0 && friction_half_life > 0 && r_max > 0 && m == 0 ==> r == Err::<
                System,
                ConfigError,
            >(ConfigError::ZeroColorClasses),
            r matches Ok(s) ==> ({
                &&& s.wf()
                &&& s.count == count
                &&& s.dt == dt
                &&& s.r_max == r_max
                &&& s.m == m
                &&& s.force_factor == force_factor
                &&& s.friction_factor == friction_factor_s(dt as int, friction_half_life as int)
                &&& (dt == friction_half_life ==> s.friction_factor == SCALE / 2)
                &&& !s.running
                &&& s.particles@.len() == count
                &&& (forall|i: int|
                    0 <= i < count ==> #[trigger] s.particles@[i] == particle_from(
                        i as u32,
                        m as int,
                        lcg_iter(seed, (3 * i) as nat),
                    ))
                &&& s.rule_matrix.m == m
                &&& (forall|k: int|
                    0 <= k < m * m ==> #[trigger] s.rule_matrix.values@[k] == entry_from(
                        lcg_iter(seed, (3 * count) as nat),
                        k as nat,
                    ))
            }),
    {
        if count == 0 {
            return Err(ConfigError::ZeroCount);
        }
        if dt <= 0 {
            return Err(ConfigError::NonPositiveDt);
        }
        if friction_half_life <= 0 {
            return Err(ConfigError::NonPositiveFrictionHalfLife);
        }
        if r_max <= 0 {
            return Err(ConfigError::NonPositiveRMax);
        }
        if m == 0 {
            return Err(ConfigError::ZeroColorClasses);
        }
        let mut rng = Lcg::new(seed);
        let mut particles: Vec<Particle> = Vec::new();
        let mut id: usize = 0;
        while id < count
            invariant
                id <= count,
                count <= MAX_COUNT,
                0 < m <= MAX_COLORS,
                particles@.len() == id,
                rng.state == lcg_iter(seed, (3 * id) as nat),
                forall|i: int|
                    0 <= i < id ==> #[trigger] particles@[i] == particle_from(
                        i as u32,
                        m as int,
                        lcg_iter(seed, (3 * i) as nat),
                    ),
                forall|i: int|
                    0 <= i < id ==> ((#[trigger] particles@[i]).wf() && particles@[i].color < m
                        && particles@[i].id == i),
            decreases count - id,
        {
            let p = Particle::from_random(id as u32, m, &mut rng);
            proof {
                let base = (3 * id) as nat;
                assert(lcg_iter(seed, base + 1) == lcg_next_s(lcg_iter(seed, base)));
                assert(lcg_iter(seed, base + 2) == lcg_next_s(lcg_iter(seed, base + 1)));
                assert(lcg_iter(seed, base + 3) == lcg_next_s(lcg_iter(seed, base + 2)));
            }
            particles.push(p);
            id = id + 1;
        }
        let friction_factor = half_pow(dt, friction_half_life);
        let rule_matrix = RulesMatrix::new(m, &mut rng);
        Ok(
            System {
                count,
                dt,
                r_max,
                friction_factor,
                rule_matrix,
                m,
                force_factor,
                particles,
                running: false,
            },
        )
    }

    /// A simulation over an explicitly given particle set and rule table:
    /// the deterministic construction that tests and hosts with their own
    /// placement use.  The color-class count is the table's dimension.
    /// Degenerate parameters, a malformed table, and a particle out of
    /// range, out of the table, out of order, or carrying a nonzero
    /// acceleration accumulator are rejected eagerly.
    #[verifier::loop_isolation(false)]
    pub fn from_state(
        particles: Vec<Particle>,
        rule_matrix: RulesMatrix,
        dt: i64,
        friction_half_life: i64,
        r_max: i64,
        force_factor: i64,
    ) -> (r: Result<System, ConfigError>)
        requires
            particles@.len() <= MAX_COUNT,
            rule_matrix.m <= MAX_COLORS,
            dt <= FX_MAX,
            friction_half_life <= FX_MAX,
            r_max <= FX_MAX,
            fx_in_range(force_factor as int),
        ensures
            (r is Ok) <==> (particles@.len() > 0 && dt > 0 && friction_half_life > 0 && r_max > 0
                && rule_matrix.m > 0 && rule_matrix.wf() && particles_ok(
                particles@,
                rule_matrix.m as int,
            )),
            particles@.len() == 0 ==> r == Err::<System, ConfigError>(ConfigError::ZeroCount),
            particles@.len() > 0 && dt <= 0 ==> r == Err::<System, ConfigError>(
                ConfigError::NonPositiveDt,
            ),
            particles@.len() > 0 && dt > 0 && friction_half_life <= 0 ==> r == Err::<
                System,
                ConfigError,
            >(ConfigError::NonPositiveFrictionHalfLife),
            particles@.len() > 0 && dt > 0 && friction_half_life > 0 && r_max <= 0 ==> r == Err::<
                System,
                ConfigError,
            >(ConfigError::NonPositiveRMax),
            particles@.len() > 0 && dt > 0 && friction_half_life > 0 && r_max > 0
                && rule_matrix.m == 0 ==> r == Err::<System, ConfigError>(
                ConfigError::ZeroColorClasses,
            ),
            particles@.len() > 0 && dt > 0 && friction_half_life > 0 && r_max > 0
                && rule_matrix.m > 0 && !rule_matrix.wf() ==> r == Err::<System, ConfigError>(
                ConfigError::InvalidMatrix,
            ),
            particles@.len() > 0 && dt > 0 && friction_half_life > 0 && r_max > 0
                && rule_matrix.m > 0 && rule_matrix.wf() && !particles_ok(
                particles@,
                rule_matrix.m as int,
            ) ==> r == Err::<System, ConfigError>(ConfigError::InvalidParticle),
            r matches Ok(s) ==> ({
                &&& s.wf()
                &&& s.count == particles@.len()
                &&& s.dt == dt
                &&& s.r_max == r_max
                &&& s.m == rule_matrix.m
                &&& s.force_factor == force_factor
                &&& s.friction_factor == friction_factor_s(dt as int, friction_half_life as int)
                &&& (dt == friction_half_life ==> s.friction_factor == SCALE / 2)
                &&& !s.running
                &&& s.particles@ == particles@
                &&& s.rule_matrix.m == rule_matrix.m
                &&& s.rule_matrix.values@ == rule_matrix.values@
            }),
    {
        let count: usize = particles.len();
        if count == 0 {
            return Err(ConfigError::ZeroCount);
        }
        if dt <= 0 {
            return Err(ConfigError::NonPositiveDt);
        }
        if friction_half_life <= 0 {
            return Err(ConfigError::NonPositiveFrictionHalfLife);
        }
        if r_max <= 0 {
            return Err(ConfigError::NonPositiveRMax);
        }
        let m: usize = rule_matrix.m;
        if m == 0 {
            return Err(ConfigError::ZeroColorClasses);
        }
        proof {
            assert((m as int) * (m as int) <= (MAX_COLORS as int) * (MAX_COLORS as int))
                by (nonlinear_arith)
                requires
                    0 <= m as int <= MAX_COLORS as int,
            ;
        }
        if rule_matrix.values.len() != m * m {
            return Err(ConfigError::InvalidMatrix);
        }
        let total: usize = m * m;
        let mut k: usize = 0;
        while k < total
            invariant
                k <= total,
                rule_matrix.values@.len() == total,
                forall|idx: int|
                    0 <= idx < k ==> -(SCALE as int) <= #[trigger] rule_matrix.values@[idx]
                        <= SCALE as int,
            decreases total - k,
        {
            let v = rule_matrix.values[k];
            if v < -SCALE || v > SCALE {
                return Err(ConfigError::InvalidMatrix);
            }
            k = k + 1;
        }
        let mut i: usize = 0;
        while i < count
            invariant
                i <= count,
                count == particles@.len(),
                m == rule_matrix.m,
                forall|idx: int|
                    0 <= idx < i ==> ((#[trigger] particles@[idx]).wf() && (
                    particles@[idx].color as int) < m as int && particles@[idx].id == idx
                        && particles@[idx].acceleration == (Vec2 { x: 0, y: 0 })),
            decreases count - i,
        {
            if !check_particle(&particles[i], i, m) {
                return Err(ConfigError::InvalidParticle);
            }
            i = i + 1;
        }
        let friction_factor = half_pow(dt, friction_half_life);
        Ok(
            System {
                count,
                dt,
                r_max,
                friction_factor,
                rule_matrix,
                m,
                force_factor,
                particles,
                running: false,
            },
        )
    }
}

/// The forces accumulated on a particle depend only on the particle set,
/// the rule table, and the cutoff radius: two simulations that agree on
/// those agree on every partial neighbor sum.
pub proof fn lemma_force_sum_congruent(a: System, b: System, i: int, k: int)
    requires
        a.particles@ == b.particles@,
        a.rule_matrix.m == b.rule_matrix.m,
        a.rule_matrix.values@ == b.rule_matrix.values@,
        a.r_max == b.r_max,
    ensures
        force_sum(a, i, k) == force_sum(b, i, k),
    decreases k,
{
    if k > 0 {
        lemma_force_sum_congruent(a, b, i, k - 1);
    }
}

/// One tick is a function of the particle set, the rule table, and the
/// parameters alone: two simulations that agree on those advance to the
/// same population, whatever else about them differs.  In particular, with
/// all inputs fixed, repeated stepping retraces the same trajectory.
pub proof fn lemma_stepped_congruent(a: System, b: System)
    requires
        a.particles@ == b.particles@,
        a.rule_matrix.m == b.rule_matrix.m,
        a.rule_matrix.values@ == b.rule_matrix.values@,
        a.r_max == b.r_max,
        a.friction_factor == b.friction_factor,
        a.force_factor == b.force_factor,
        a.dt == b.dt,
    ensures
        stepped(a) == stepped(b),
{
    assert forall|i: int| 0 <= i < a.particles@.len() implies stepped(a)[i] == stepped(b)[i] by {
        lemma_force_sum_congruent(a, b, i, a.particles@.len() as int);
        assert(forced_particle(a, i) == forced_particle(b, i));
    }
    assert(stepped(a) =~= stepped(b));
}

} // verus!
