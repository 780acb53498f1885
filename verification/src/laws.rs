//! The simulation's general laws, stated over the same specification
//! functions that the executable contracts use, and proved once and for
//! all.  The per-call facts (exact drag, exact friction factor, exact
//! integration order) stand in the contracts of the functions themselves;
//! what relates several of them is here.

use vstd::prelude::*;
use crate::fixed::{SCALE, fx_mul, lemma_dtz_neg};
use crate::particle::{Particle, moved_particle, dist_s, dist_sq};
use crate::system::{
    System, BETA, near_force_s, tent_force_s, rule_force_s, pair_force, force_sum,
    total_force, forced_particle, stepped,
};
use crate::vec2::Vec2;

verus! {

/// Continuity of the force law at the near-field boundary: evaluated at
/// `BETA`, the near-field formula and the tent formula both give exactly
/// zero, whatever the rule coefficient, so the law has no jump at its
/// breakpoint.
pub proof fn lemma_force_law_continuous_at_beta(rv: int)
    ensures
        near_force_s(BETA as int) == 0,
        tent_force_s(BETA as int, rv) == 0,
        rule_force_s(BETA as int, rv) == 0,
{
}

/// The far-field cutoff: at or beyond the interaction radius the force law
/// is exactly zero, whatever the rule coefficient.
pub proof fn lemma_far_field_cutoff(nd: int, rv: int)
    requires
        nd >= SCALE,
    ensures
        rule_force_s(nd, rv) == 0,
{
}

/// No self-interaction: the neighbor sum of a lone particle is empty, and
/// a tick leaves a single resting particle exactly as it was, position and
/// velocity unchanged and acceleration zero.
pub proof fn lemma_single_particle_unmoved(s: System)
    requires
        s.wf(),
        s.particles@.len() == 1,
        s.particles@[0].velocity == (Vec2 { x: 0, y: 0 }),
        s.particles@[0].acceleration == (Vec2 { x: 0, y: 0 }),
    ensures
        force_sum(s, 0, 1) == (0int, 0int),
        stepped(s) == seq![s.particles@[0]],
{
    let p = s.particles@[0];
    assert(s.particles@[0].wf());
    assert(force_sum(s, 0, 1) == force_sum(s, 0, 0));
    let k = fx_mul(s.force_factor as int, s.r_max as int);
    assert(0 * k == 0 && 0 * (s.friction_factor as int) == 0 && 0 * (s.dt as int) == 0)
        by (nonlinear_arith);
    assert(total_force(s, 0) == (0int, 0int));
    assert(forced_particle(s, 0) == p);
    assert(moved_particle(forced_particle(s, 0), s.dt as int) == p);
    assert(stepped(s) =~= seq![p]);
}

/// Pairwise symmetry: the force a neighbor exerts on a particle is exactly
/// opposite to the force the particle exerts back under the same rule
/// coefficient, so two particles of one color push or pull each other with
/// equal magnitudes.
pub proof fn lemma_pair_force_antisymmetric(p: Particle, q: Particle, rv: int, r_max: int)
    ensures
        pair_force(p, q, rv, r_max).0 == -pair_force(q, p, rv, r_max).0,
        pair_force(p, q, rv, r_max).1 == -pair_force(q, p, rv, r_max).1,
{
    let dx = p.position.x - q.position.x;
    let dy = p.position.y - q.position.y;
    assert(dx * dx == (-dx) * (-dx) && dy * dy == (-dy) * (-dy)) by (nonlinear_arith);
    assert(dist_sq(p, q) == dist_sq(q, p));
    let d = dist_s(p, q);
    if 0 < d && d < r_max {
        let nd = d * (SCALE as int) / r_max;
        let mag = rule_force_s(nd, rv);
        let ux = crate::fixed::dtz((q.position.x - p.position.x) * (SCALE as int), d);
        let uy = crate::fixed::dtz((q.position.y - p.position.y) * (SCALE as int), d);
        lemma_dtz_neg((q.position.x - p.position.x) * (SCALE as int), d);
        lemma_dtz_neg((q.position.y - p.position.y) * (SCALE as int), d);
        assert((p.position.x - q.position.x) * (SCALE as int) == -((q.position.x - p.position.x)
            * (SCALE as int)));
        assert((p.position.y - q.position.y) * (SCALE as int) == -((q.position.y - p.position.y)
            * (SCALE as int)));
        assert((-ux) * mag == -(ux * mag)) by (nonlinear_arith);
        assert((-uy) * mag == -(uy * mag)) by (nonlinear_arith);
        lemma_dtz_neg(ux * mag, SCALE as int);
        lemma_dtz_neg(uy * mag, SCALE as int);
    }
}

} // verus!
