//! A seeded, deterministic source of uniform fixed-point numbers.
//!
//! Randomized construction (initial particle placement, rule-matrix entries)
//! draws from this injected generator rather than from a hidden process
//! global, so a run is reproducible from its seed alone.  The generator is a
//! 64-bit linear congruential generator; its whole behaviour is a function
//! of the seed, stated exactly in the contracts.

use vstd::prelude::*;
use crate::fixed::SCALE;

verus! {

/// Multiplier of the linear congruential step.
pub const LCG_MUL: u64 = 6364136223846793005;

/// Increment of the linear congruential step.
pub const LCG_INC: u64 = 1442695040888963407;

/// Modulus of the linear congruential step: one beyond `u64::MAX`.
pub const LCG_MOD: u128 = 0x1_0000_0000_0000_0000;

/// The generator state that follows `s`.
pub open spec fn lcg_next_s(s: u64) -> u64 {
    ((s * LCG_MUL + LCG_INC) % (LCG_MOD as int)) as u64
}

/// The unit draw derived from a generator state: a fixed-point number in
/// `[0, 1)`, taken from the state's upper bits.
pub open spec fn unit_of(s: u64) -> int {
    ((s >> 11) % (SCALE as u64)) as int
}

/// The generator state after `n` steps from seed `s`.
pub open spec fn lcg_iter(s: u64, n: nat) -> u64
    decreases n,
{
    if n == 0 {
        s
    } else {
        lcg_next_s(lcg_iter(s, (n - 1) as nat))
    }
}

/// A seeded linear congruential generator.
pub struct Lcg {
    pub state: u64,
}

impl Lcg {
    /// A generator starting from the given seed.
    pub fn new(seed: u64) -> (r: Lcg)
        ensures
            r.state == seed,
    {
        Lcg { state: seed }
    }

    /// Advance once and hand out a uniform fixed-point number in `[0, 1)`.
    pub fn next_unit(&mut self) -> (r: i64)
        ensures
            final(self).state == lcg_next_s(old(self).state),
            r == unit_of(final(self).state),
            0 <= r < SCALE,
    {
        proof {
            assert((self.state as int) * (LCG_MUL as int) + (LCG_INC as int) < LCG_MOD as int
                * (LCG_MOD as int)) by (nonlinear_arith)
                requires
                    0 <= (self.state as int) && (self.state as int) < LCG_MOD as int,
            ;
        }
        let wide: u128 = (self.state as u128) * (LCG_MUL as u128) + (LCG_INC as u128);
        let next: u64 = (wide % LCG_MOD) as u64;
        self.state = next;
        let r: u64 = (next >> 11) % (SCALE as u64);
        r as i64
    }
}

} // verus!
