//! Signed fixed-point scalars.
//!
//! Every physical quantity of the simulation (position, velocity, time step,
//! radius, interaction coefficient) is an `i64` holding the real value scaled
//! by [`SCALE`]: the stored number `n` stands for the real `n / SCALE`.
//! Magnitudes are kept within [`FX_MAX`]; the arithmetic helpers saturate
//! there, and their contracts state the exact (clamped, floor-divided)
//! result.

use vstd::prelude::*;
use vstd::arithmetic::div_mod::{
    lemma_div_is_ordered, lemma_div_is_ordered_by_denominator, lemma_div_pos_is_pos,
    lemma_div_multiples_vanish, lemma_div_denominator,
};
use vstd::arithmetic::mul::{
    lemma_mul_inequality, lemma_mul_nonnegative, lemma_mul_unary_negation,
    lemma_mul_strictly_positive,
};
use vstd::arithmetic::power2::{pow2, lemma_pow2_adds, lemma_pow2_pos};

verus! {

/// One unit of the real line, as a fixed-point integer: the stored value
/// `n` stands for the real number `n / SCALE`.
pub const SCALE: i64 = 1_000_000;

/// Largest magnitude a fixed-point scalar may take.  All helpers clamp
/// their results into `[-FX_MAX, FX_MAX]`, and the simulation keeps every
/// stored scalar within that range.
pub const FX_MAX: i64 = 1_000_000_000_000_000_000;

/// A scalar is in range when its magnitude is at most [`FX_MAX`].
pub open spec fn fx_in_range(v: int) -> bool {
    -FX_MAX <= v <= FX_MAX
}

/// Clamp an unbounded integer into the representable range.
pub open spec fn fx_clamp(v: int) -> int {
    if v > FX_MAX as int {
        FX_MAX as int
    } else if v < -(FX_MAX as int) {
        -(FX_MAX as int)
    } else {
        v
    }
}

/// Magnitude of an integer.
pub open spec fn fx_abs(v: int) -> int {
    if v >= 0 {
        v
    } else {
        -v
    }
}

/// Division that rounds toward zero, for a positive divisor: the exact
/// meaning of the executable sign-magnitude divisions below.
pub open spec fn dtz(a: int, b: int) -> int
    recommends
        b > 0,
{
    if a >= 0 {
        a / b
    } else {
        -((-a) / b)
    }
}

/// Fixed-point product: the real product of the two operands, rounded
/// toward zero and clamped into range.
pub open spec fn fx_mul(a: int, b: int) -> int {
    fx_clamp(dtz(a * b, SCALE as int))
}

/// Saturating addition of two in-range scalars.
pub fn sat_add(a: i64, b: i64) -> (r: i64)
    requires
        fx_in_range(a as int),
        fx_in_range(b as int),
    ensures
        r == fx_clamp(a + b),
        fx_in_range(r as int),
{
    let s: i64 = a + b;
    if s > FX_MAX {
        FX_MAX
    } else if s < -FX_MAX {
        -FX_MAX
    } else {
        s
    }
}

/// The magnitude of a product is the product of the magnitudes.
pub proof fn lemma_abs_mul(a: int, b: int)
    ensures
        fx_abs(a * b) == fx_abs(a) * fx_abs(b),
{
    if a >= 0 && b >= 0 {
        lemma_mul_nonnegative(a, b);
    } else if a < 0 && b < 0 {
        lemma_mul_unary_negation(a, -b);
        lemma_mul_unary_negation(-a, -b);
        lemma_mul_strictly_positive(-a, -b);
    } else if a < 0 {
        lemma_mul_unary_negation(-a, b);
        lemma_mul_nonnegative(-a, b);
    } else {
        lemma_mul_unary_negation(a, -b);
        lemma_mul_nonnegative(a, -b);
    }
}

/// Division toward zero, described through magnitudes: the magnitude of the
/// quotient is the floor-divided magnitude of the dividend.
proof fn lemma_dtz_abs(p: int, d: int)
    requires
        d > 0,
    ensures
        fx_abs(dtz(p, d)) == fx_abs(p) / d,
        p >= 0 ==> dtz(p, d) == fx_abs(p) / d,
        p < 0 ==> dtz(p, d) == -(fx_abs(p) / d),
{
    if p >= 0 {
        lemma_div_pos_is_pos(p, d);
    } else {
        lemma_div_pos_is_pos(-p, d);
    }
}

/// When one factor is at most one unit, the fixed-point product is exact
/// (no clamping) and no larger in magnitude than the other factor.
proof fn lemma_fx_mul_contract(a: int, b: int)
    requires
        fx_in_range(a),
        fx_abs(b) <= SCALE,
    ensures
        fx_abs(dtz(a * b, SCALE as int)) <= fx_abs(a),
        fx_mul(a, b) == dtz(a * b, SCALE as int),
{
    lemma_abs_mul(a, b);
    lemma_dtz_abs(a * b, SCALE as int);
    lemma_mul_inequality(fx_abs(b), SCALE as int, fx_abs(a));
    assert(fx_abs(a) * (SCALE as int) == (SCALE as int) * fx_abs(a)) by (nonlinear_arith);
    assert(fx_abs(b) * fx_abs(a) == fx_abs(a) * fx_abs(b)) by (nonlinear_arith);
    assert(fx_abs(a) * fx_abs(b) <= fx_abs(a) * (SCALE as int));
    lemma_div_is_ordered(fx_abs(a) * fx_abs(b), fx_abs(a) * (SCALE as int), SCALE as int);
    lemma_div_multiples_vanish(fx_abs(a), SCALE as int);
}

/// Fixed-point multiplication: rounds the real product toward zero and
/// saturates at the representable bound.
pub fn fp_mul(a: i64, b: i64) -> (r: i64)
    requires
        fx_in_range(a as int),
        fx_in_range(b as int),
    ensures
        r == fx_mul(a as int, b as int),
        fx_in_range(r as int),
        fx_abs(b as int) <= SCALE ==> r == dtz(a * b, SCALE as int) && fx_abs(
            r as int,
        ) <= fx_abs(a as int),
{
    let neg: bool = (a < 0) != (b < 0);
    let ma: u128 = if a < 0 {
        (-a) as u128
    } else {
        a as u128
    };
    let mb: u128 = if b < 0 {
        (-b) as u128
    } else {
        b as u128
    };
    proof {
        assert(ma == fx_abs(a as int));
        assert(mb == fx_abs(b as int));
        assert(ma * mb <= (FX_MAX as int) * (FX_MAX as int)) by (nonlinear_arith)
            requires
                0 <= ma <= FX_MAX as int,
                0 <= mb <= FX_MAX as int,
        ;
    }
    let mp: u128 = ma * mb;
    let mq: u128 = mp / (SCALE as u128);
    proof {
        let p = (a as int) * (b as int);
        lemma_abs_mul(a as int, b as int);
        lemma_dtz_abs(p, SCALE as int);
        assert(mq == fx_abs(p) / (SCALE as int));
        if neg {
            if a < 0 {
                lemma_mul_unary_negation(-(a as int), b as int);
                lemma_mul_nonnegative(-(a as int), b as int);
            } else {
                lemma_mul_unary_negation(a as int, -(b as int));
                lemma_mul_nonnegative(a as int, -(b as int));
            }
            assert(p <= 0);
            assert(dtz(p, SCALE as int) == -(mq as int));
        } else {
            if a < 0 {
                lemma_mul_nonnegative(-(a as int), -(b as int));
                lemma_mul_unary_negation(a as int, -(b as int));
                lemma_mul_unary_negation(-(a as int), -(b as int));
            } else {
                lemma_mul_nonnegative(a as int, b as int);
            }
            assert(p >= 0);
            assert(dtz(p, SCALE as int) == mq as int);
        }
        if fx_abs(b as int) <= SCALE {
            lemma_fx_mul_contract(a as int, b as int);
        }
    }
    if mq > FX_MAX as u128 {
        if neg {
            -FX_MAX
        } else {
            FX_MAX
        }
    } else {
        let q: i64 = mq as i64;
        if neg {
            -q
        } else {
            q
        }
    }
}

/// Fixed-point quotient of a displacement component by a distance that
/// bounds it: exact division toward zero, always within one unit.
pub fn fp_ratio(num: i64, den: i64) -> (r: i64)
    requires
        0 < den,
        fx_abs(num as int) <= den,
    ensures
        r == dtz(num * (SCALE as int), den as int),
        fx_abs(r as int) <= SCALE,
{
    let mn: u128 = if num < 0 {
        (-num) as u128
    } else {
        num as u128
    };
    proof {
        assert(mn * (SCALE as u128) <= (den as int) * (SCALE as int)) by (nonlinear_arith)
            requires
                0 <= mn <= den as int,
                0 < SCALE as int,
        ;
    }
    let mq: u128 = (mn * (SCALE as u128)) / (den as u128);
    proof {
        let p = (num as int) * (SCALE as int);
        lemma_abs_mul(num as int, SCALE as int);
        lemma_dtz_abs(p, den as int);
        assert(mq == fx_abs(p) / (den as int));
        lemma_mul_inequality(fx_abs(num as int), den as int, SCALE as int);
        lemma_div_is_ordered(fx_abs(num as int) * (SCALE as int), (den as int) * (SCALE as int), den as int);
        lemma_div_multiples_vanish(SCALE as int, den as int);
        assert(mq <= SCALE);
        if num >= 0 {
            lemma_mul_nonnegative(num as int, SCALE as int);
            assert(dtz(p, den as int) == mq as int);
        } else {
            lemma_mul_unary_negation(num as int, SCALE as int);
            assert(p < 0 || p == 0);
            assert(dtz(p, den as int) == -(mq as int));
        }
    }
    let q: i64 = mq as i64;
    if num < 0 {
        -q
    } else {
        q
    }
}

/// Floor of the square root, as a recursive specification.
pub open spec fn sqrt_floor(n: int) -> int
    decreases n,
{
    if n < 1 {
        0
    } else {
        let s = sqrt_floor(n - 1);
        if (s + 1) * (s + 1) <= n {
            s + 1
        } else {
            s
        }
    }
}

/// `sqrt_floor(n)` is the unique nonnegative root: its square is at most
/// `n`, and the next square is beyond `n`.
pub proof fn lemma_sqrt_floor_props(n: int)
    requires
        n >= 0,
    ensures
        sqrt_floor(n) >= 0,
        sqrt_floor(n) * sqrt_floor(n) <= n,
        n < (sqrt_floor(n) + 1) * (sqrt_floor(n) + 1),
    decreases n,
{
    if n < 1 {
        assert(sqrt_floor(n) == 0);
    } else {
        lemma_sqrt_floor_props(n - 1);
        let s = sqrt_floor(n - 1);
        if (s + 1) * (s + 1) <= n {
            assert((s + 1) * (s + 1) <= n);
            assert(n - 1 < (s + 1) * (s + 1));
            assert(n == (s + 1) * (s + 1));
            assert((s + 1 + 1) * (s + 1 + 1) > (s + 1) * (s + 1)) by (nonlinear_arith)
                requires
                    s >= 0,
            ;
        }
    }
}

/// Any nonnegative number whose square is at most `n` is at most
/// `sqrt_floor(n)`, and conversely: the bracketing inequalities determine
/// the root.
pub proof fn lemma_sqrt_floor_unique(n: int, r: int)
    requires
        n >= 0,
        r >= 0,
        r * r <= n,
        n < (r + 1) * (r + 1),
    ensures
        r == sqrt_floor(n),
{
    lemma_sqrt_floor_props(n);
    let s = sqrt_floor(n);
    if s < r {
        assert((s + 1) * (s + 1) <= r * r) by (nonlinear_arith)
            requires
                0 <= s,
                s + 1 <= r,
        ;
    }
    if r < s {
        assert((r + 1) * (r + 1) <= s * s) by (nonlinear_arith)
            requires
                0 <= r,
                r + 1 <= s,
        ;
    }
}

/// A square never exceeds the square of the root of any larger number:
/// bounds each displacement component by the full distance.
pub proof fn lemma_sqrt_floor_lower(n: int, a: int)
    requires
        n >= 0,
        a * a <= n,
    ensures
        fx_abs(a) <= sqrt_floor(n),
{
    lemma_sqrt_floor_props(n);
    let s = sqrt_floor(n);
    lemma_abs_mul(a, a);
    assert(a * a >= 0) by (nonlinear_arith);
    assert(fx_abs(a) * fx_abs(a) == a * a);
    if fx_abs(a) > s {
        assert((s + 1) * (s + 1) <= fx_abs(a) * fx_abs(a)) by (nonlinear_arith)
            requires
                0 <= s,
                s + 1 <= fx_abs(a),
        ;
        assert(false);
    }
}

/// Floor of the square root, by binary search over the result.
pub fn isqrt(n: u128) -> (r: u64)
    ensures
        r == sqrt_floor(n as int),
        (r as int) * (r as int) <= n as int,
        n < (r as int + 1) * (r as int + 1),
{
    let mut lo: u64 = 0;
    let mut hi: u64 = u64::MAX;
    proof {
        assert((hi as int + 1) * (hi as int + 1) > u128::MAX as int) by (nonlinear_arith)
            requires
                hi as int == u64::MAX as int,
        ;
    }
    while lo < hi
        invariant
            lo <= hi,
            (lo as int) * (lo as int) <= n as int,
            (n as int) < (hi as int + 1) * (hi as int + 1),
        decreases hi - lo,
    {
        let mid: u64 = hi - (hi - lo) / 2;
        proof {
            assert(lo < mid <= hi);
            assert((mid as int) * (mid as int) <= u128::MAX as int) by (nonlinear_arith)
                requires
                    0 <= mid as int <= u64::MAX as int,
                    u128::MAX as int == (u64::MAX as int + 1) * (u64::MAX as int + 1) - 1,
            ;
        }
        let sq: u128 = (mid as u128) * (mid as u128);
        if sq <= n {
            lo = mid;
        } else {
            hi = mid - 1;
        }
    }
    proof {
        lemma_sqrt_floor_unique(n as int, lo as int);
    }
    lo
}

/// One unit divided by the `n`-th power of two, in fixed point.
pub open spec fn unit_over_pow2(n: nat) -> int {
    (SCALE as int) / (pow2(n) as int)
}

/// Binary digits of the fractional exponent that the power scan reads.
pub const FRAC_BITS: u64 = 20;

/// One scan step of the fractional power `2^(-f/SCALE)`: double the
/// remaining fractional exponent to expose its next binary digit; on a set
/// digit the accumulator takes the current root factor; either way the root
/// is square-rooted for the digit after.  Starting the root at
/// `sqrt(1/2)`, digit `i` contributes the factor `2^(-2^-i)`.
pub open spec fn frac_pow_step(acc: int, rem: int, root: int, k: nat) -> int
    decreases k,
{
    if k == 0 {
        acc
    } else {
        let rem2 = 2 * rem;
        let root2 = sqrt_floor(root * (SCALE as int));
        if rem2 >= SCALE {
            frac_pow_step(dtz(acc * root, SCALE as int), rem2 - SCALE, root2, (k - 1) as nat)
        } else {
            frac_pow_step(acc, rem2, root2, (k - 1) as nat)
        }
    }
}

/// `2^(-e/SCALE)` in fixed point, for a nonnegative fixed-point exponent
/// `e`: one unit divided by two for each whole unit of the exponent, times
/// `2^(-2^-i)` for each set binary digit of the fractional part, every root
/// and every product an exact floored integer computation.  Each of the
/// digit scan's steps rounds down by less than one fixed-point step, so the
/// result sits slightly below the real power, and it is exactly `1/2^n`
/// when `e` is `n` whole units.
pub open spec fn half_pow_s(e: int) -> int {
    let n = (e / (SCALE as int)) as nat;
    let f = e % (SCALE as int);
    let root = sqrt_floor((SCALE as int / 2) * (SCALE as int));
    dtz(unit_over_pow2(n) * frac_pow_step(SCALE as int, f, root, FRAC_BITS as nat), SCALE as int)
}

/// The derived per-tick retention fraction `0.5^(dt / half_life)`: velocity
/// magnitude halves every `half_life` time units of simulated time,
/// independent of the step `dt` (to fixed-point precision; exactly one half
/// when the step equals the half-life).
pub open spec fn friction_factor_s(dt: int, half_life: int) -> int {
    half_pow_s(dt * (SCALE as int) / half_life)
}

/// A fractional exponent with no set digits left contributes no factor.
proof fn lemma_frac_pow_zero(acc: int, root: int, k: nat)
    ensures
        frac_pow_step(acc, 0, root, k) == acc,
    decreases k,
{
    if k > 0 {
        lemma_frac_pow_zero(acc, sqrt_floor(root * (SCALE as int)), (k - 1) as nat);
    }
}

/// One unit divided by the `n`-th power of two, by repeated halving.
pub fn pow2_div(n: u64) -> (r: i64)
    ensures
        r == unit_over_pow2(n as nat),
        0 <= r <= SCALE,
{
    let mut r: u64 = SCALE as u64;
    let mut i: u64 = 0;
    proof {
        vstd::arithmetic::power2::lemma2_to64();
    }
    while i < n && r > 0
        invariant
            i <= n,
            0 <= r <= SCALE,
            r == unit_over_pow2(i as nat),
        decreases n - i,
    {
        proof {
            lemma_pow2_pos(i as nat);
            lemma_pow2_adds(i as nat, 1);
            vstd::arithmetic::power2::lemma2_to64();
            lemma_div_denominator(SCALE as int, pow2(i as nat) as int, 2);
        }
        r = r / 2;
        i = i + 1;
    }
    if r == 0 && i < n {
        proof {
            lemma_pow2_pos(i as nat);
            lemma_pow2_pos(n as nat);
            vstd::arithmetic::power2::lemma_pow2_strictly_increases(i as nat, n as nat);
            lemma_div_is_ordered_by_denominator(
                SCALE as int,
                pow2(i as nat) as int,
                pow2(n as nat) as int,
            );
            lemma_div_pos_is_pos(SCALE as int, pow2(n as nat) as int);
        }
        0
    } else {
        r as i64
    }
}

/// The per-tick retention fraction derived from the time step and the
/// friction half-life (see [`friction_factor_s`]).
pub fn half_pow(dt: i64, half_life: i64) -> (r: i64)
    requires
        0 < dt <= FX_MAX,
        0 < half_life <= FX_MAX,
    ensures
        r == friction_factor_s(dt as int, half_life as int),
        0 <= r <= SCALE,
        dt == half_life ==> r == SCALE / 2,
{
    proof {
        assert((dt as int) * (SCALE as int) <= (FX_MAX as int) * (SCALE as int))
            by (nonlinear_arith)
            requires
                0 < dt as int <= FX_MAX as int,
        ;
    }
    let e: u128 = (dt as u128) * (SCALE as u128) / (half_life as u128);
    let n128: u128 = e / (SCALE as u128);
    let f: u128 = e % (SCALE as u128);
    proof {
        lemma_div_is_ordered(e as int, (FX_MAX as int) * (SCALE as int), SCALE as int);
        assert((FX_MAX as int) * (SCALE as int) / (SCALE as int) == FX_MAX as int) by {
            lemma_div_multiples_vanish(FX_MAX as int, SCALE as int);
            assert((FX_MAX as int) * (SCALE as int) == (SCALE as int) * (FX_MAX as int))
                by (nonlinear_arith);
        }
        lemma_div_is_ordered((dt as int) * (SCALE as int), (FX_MAX as int) * (SCALE as int), half_life as int);
        lemma_div_is_ordered_by_denominator((FX_MAX as int) * (SCALE as int), 1, half_life as int);
        assert(n128 <= FX_MAX as int);
        assert(f < SCALE as int) by {
            vstd::arithmetic::div_mod::lemma_remainder_upper(e as int, SCALE as int);
            vstd::arithmetic::div_mod::lemma_remainder_lower(e as int, SCALE as int);
        }
    }
    let n: u64 = n128 as u64;
    let base: i64 = pow2_div(n);
    let r0: u64 = isqrt(((SCALE as u128) / 2) * (SCALE as u128));
    proof {
        assert(r0 as int <= SCALE as int) by (nonlinear_arith)
            requires
                0 <= r0 as int,
                (r0 as int) * (r0 as int) <= (SCALE as int / 2) * (SCALE as int),
                SCALE as int == 1_000_000,
        ;
    }
    let ghost f0 = f as int;
    let ghost root0 = sqrt_floor((SCALE as int / 2) * (SCALE as int));
    let mut root: i64 = r0 as i64;
    let mut acc: i64 = SCALE;
    let mut rem: i64 = f as i64;
    let mut i: u64 = 0;
    while i < FRAC_BITS
        invariant
            i <= FRAC_BITS,
            0 <= acc <= SCALE,
            0 <= root <= SCALE,
            0 <= rem && rem < SCALE,
            frac_pow_step(SCALE as int, f0, root0, FRAC_BITS as nat) == frac_pow_step(
                acc as int,
                rem as int,
                root as int,
                (FRAC_BITS - i) as nat,
            ),
        decreases FRAC_BITS - i,
    {
        proof {
            assert((root as int) * (SCALE as int) <= (SCALE as int) * (SCALE as int))
                by (nonlinear_arith)
                requires
                    0 <= root as int <= SCALE as int,
            ;
        }
        let rn: u64 = isqrt((root as u128) * (SCALE as u128));
        proof {
            assert(rn as int <= SCALE as int) by (nonlinear_arith)
                requires
                    0 <= rn as int,
                    (rn as int) * (rn as int) <= (root as int) * (SCALE as int),
                    0 <= root as int <= SCALE as int,
            ;
        }
        let rem2: i64 = 2 * rem;
        if rem2 >= SCALE {
            proof {
                lemma_mul_nonnegative(acc as int, root as int);
                lemma_div_pos_is_pos((acc as int) * (root as int), SCALE as int);
            }
            acc = fp_mul(acc, root);
            rem = rem2 - SCALE;
        } else {
            rem = rem2;
        }
        root = rn as i64;
        i = i + 1;
    }
    let r: i64 = fp_mul(base, acc);
    proof {
        lemma_mul_nonnegative(base as int, acc as int);
        lemma_div_pos_is_pos((base as int) * (acc as int), SCALE as int);
        if dt == half_life {
            lemma_div_multiples_vanish(SCALE as int, dt as int);
            vstd::arithmetic::power2::lemma2_to64();
            assert(e == SCALE as int);
            assert(f0 == 0);
            lemma_frac_pow_zero(SCALE as int, root0, FRAC_BITS as nat);
            assert(acc == SCALE);
            assert(base == 500_000);
        }
    }
    r
}

/// Division toward zero is odd in its dividend.
pub proof fn lemma_dtz_neg(a: int, d: int)
    requires
        d > 0,
    ensures
        dtz(-a, d) == -dtz(a, d),
{
}

/// Scaling a nonzero in-range value by a factor strictly inside `(0, 1)`
/// strictly shrinks its magnitude and never flips its sign: repeated drag
/// drives a velocity component monotonically toward zero.
pub proof fn lemma_drag_shrinks(v: int, factor: int)
    requires
        fx_in_range(v),
        0 < factor < SCALE,
        v != 0,
    ensures
        fx_abs(dtz(v * factor, SCALE as int)) < fx_abs(v),
        v > 0 ==> 0 <= dtz(v * factor, SCALE as int) < v,
        v < 0 ==> v < dtz(v * factor, SCALE as int) <= 0,
{
    lemma_abs_mul(v, factor);
    lemma_dtz_abs(v * factor, SCALE as int);
    assert(fx_abs(v) * factor < (SCALE as int) * fx_abs(v)) by (nonlinear_arith)
        requires
            factor < SCALE as int,
            fx_abs(v) >= 1,
    ;
    vstd::arithmetic::div_mod::lemma_multiply_divide_lt(
        fx_abs(v) * factor,
        SCALE as int,
        fx_abs(v),
    );
    lemma_mul_nonnegative(fx_abs(v), factor);
    lemma_div_pos_is_pos(fx_abs(v) * factor, SCALE as int);
    if v > 0 {
        lemma_mul_nonnegative(v, factor);
    } else {
        lemma_mul_unary_negation(-v, factor);
        lemma_mul_nonnegative(-v, factor);
    }
}

} // verus!
