//! Fixed-point integer arithmetic for the simulation engine.
//!
//! The engine stores positions in millimetres, velocities in micrometres
//! per second and accelerations in nanometres per second squared, all as
//! `i128` values clamped to symmetric ranges, and masses in kilograms as
//! `u128` values. The helpers here perform the truncating (round toward
//! zero) multiply-divide steps of the integrator and the integer square
//! and cube roots of the collision rules, each with an exact contract.

use vstd::prelude::*;

verus! {

/// Largest magnitude a position or velocity component may take.
pub const COORD_LIMIT: i128 = 4611686018427387904;

/// Largest magnitude an accumulated acceleration component may take.
pub const ACC_SUM_LIMIT: i128 = 1180591620717411303424;

/// Cap on the acceleration magnitude a single pull may contribute.
pub const ACC_PAIR_CAP: u128 = 18446744073709551616;

/// Largest total mass (kilograms) a system may hold.
pub const MASS_LIMIT: u128 = 20282409603651670423947251286016;

/// Largest total cubed radius (cubic millimetres) a system may hold.
pub const VOLUME_LIMIT: u128 = 21267647932558653966460912964485513216;

/// Largest time increment (milliseconds) accepted by one step.
pub const DT_LIMIT: u64 = 1099511627776;

/// Micrometres per metre; also the divisor of the integrator's
/// unit conversions.
pub const MICRO: u128 = 1_000_000;

/// The gravitational constant, prescaled for the engine's units:
/// an acceleration in nanometres per second squared equals
/// `G_SCALED * mass / d2` with the mass in kilograms and `d2` a squared
/// distance in square millimetres.
pub const G_SCALED: u128 = 66_740;

/// Magnitude of an `i128`, as a mathematical integer.
pub open spec fn spec_abs(a: int) -> int {
    if a >= 0 {
        a
    } else {
        -a
    }
}

/// Division truncating toward zero (the divisor is positive).
pub open spec fn spec_tdiv(a: int, d: int) -> int
    recommends
        d > 0,
{
    if a >= 0 {
        a / d
    } else {
        -((-a) / d)
    }
}

/// `v` clamped to the symmetric range `[-lim, lim]`.
pub open spec fn spec_clamp(v: int, lim: int) -> int
    recommends
        lim >= 0,
{
    if v > lim {
        lim
    } else if v < -lim {
        -lim
    } else {
        v
    }
}

/// Magnitude of an `i128` as a `u128`.
pub fn iabs(a: i128) -> (r: u128)
    ensures
        r == spec_abs(a as int),
{
    if a >= 0 {
        a as u128
    } else if a == i128::MIN {
        170141183460469231731687303715884105728u128
    } else {
        (-a) as u128
    }
}

/// Clamps `v` to `[-lim, lim]`.
pub fn clamp(v: i128, lim: i128) -> (r: i128)
    requires
        lim >= 0,
    ensures
        r == spec_clamp(v as int, lim as int),
{
    if v > lim {
        lim
    } else if v < -lim {
        -lim
    } else {
        v
    }
}

/// `a * num / den`, truncating toward zero, where the scaling factor
/// `num / den` is nonnegative.
pub open spec fn spec_scale(a: int, num: int, den: int) -> int
    recommends
        num >= 0,
        den > 0,
{
    spec_tdiv(a * num, den)
}

/// Multiplies a signed value by a nonnegative ratio, truncating toward
/// zero.
pub fn scale_signed(a: i128, num: u128, den: u128) -> (r: i128)
    requires
        den > 0,
        spec_abs(a as int) * num <= u128::MAX,
        spec_abs(a as int) * num / den as int <= i128::MAX,
    ensures
        r == spec_scale(a as int, num as int, den as int),
        spec_abs(r as int) <= spec_abs(a as int) * num / den as int,
{
    let mag = iabs(a);
    let q = (mag * num) / den;
    proof {
        assert(mag * num == spec_abs(a as int) * num);
        assert(q == spec_abs(a as int) * num / den as int);
        if a >= 0 {
            assert(a * num == mag * num);
        } else {
            assert((a as int) * (num as int) == -((mag as int) * (num as int)))
                by (nonlinear_arith)
                requires
                    mag == -(a as int),
            ;
        }
        assert(q <= mag * num) by {
            vstd::arithmetic::div_mod::lemma_div_nonincreasing(
                (mag * num) as int,
                den as int,
            );
        }
    }
    if a >= 0 {
        q as i128
    } else {
        -(q as i128)
    }
}

/// The square of a magnitude is the square of the value.
pub proof fn lemma_abs_sq(a: int)
    ensures
        spec_abs(a) * spec_abs(a) == a * a,
{
    if a < 0 {
        assert((-a) * (-a) == a * a) by (nonlinear_arith);
    }
}

/// A value whose square is within a root bracket is at most the root.
pub proof fn lemma_within_sqrt(x: int, d: int, n: int)
    requires
        x >= 0,
        d >= 0,
        x * x <= n,
        (d + 1) * (d + 1) > n,
    ensures
        x <= d,
{
    assert(x <= d) by (nonlinear_arith)
        requires
            x >= 0,
            d >= 0,
            x * x <= n,
            (d + 1) * (d + 1) > n,
    ;
}

/// A positive cube under the volume limit bounds its root.
pub proof fn lemma_radius_bound(r: int)
    requires
        1 <= r,
        r * r * r <= VOLUME_LIMIT,
    ensures
        r < 4398046511104,
{
    assert(r < 4398046511104) by (nonlinear_arith)
        requires
            1 <= r,
            r * r * r <= VOLUME_LIMIT,
            VOLUME_LIMIT == 21267647932558653966460912964485513216u128,
    ;
}

/// The integer square root, as a mathematical function.
pub open spec fn spec_isqrt(n: nat) -> nat
    decreases n,
{
    if n == 0 {
        0
    } else {
        let r = spec_isqrt((n - 1) as nat);
        if (r + 1) * (r + 1) <= n {
            r + 1
        } else {
            r
        }
    }
}

#[verifier::spinoff_prover]
#[verifier::rlimit(60)]
pub proof fn lemma_isqrt_bounds(n: nat)
    ensures
        spec_isqrt(n) * spec_isqrt(n) <= n,
        (spec_isqrt(n) + 1) * (spec_isqrt(n) + 1) > n,
    decreases n,
{
    if n == 0 {
        let s = spec_isqrt(n);
        assert(s == 0);
        assert((s + 1) * (s + 1) > n) by (nonlinear_arith)
            requires
                s == 0,
                n == 0,
        ;
    } else {
        lemma_isqrt_bounds((n - 1) as nat);
        let r = spec_isqrt((n - 1) as nat);
        let s = spec_isqrt(n);
        if (r + 1) * (r + 1) <= n {
            assert(s == r + 1);
            assert((s + 1) * (s + 1) > n) by (nonlinear_arith)
                requires
                    s == r + 1,
                    (r + 1) * (r + 1) > n - 1,
                    r >= 0,
            ;
        } else {
            assert(s == r);
            assert((s + 1) * (s + 1) > n) by (nonlinear_arith)
                requires
                    s == r,
                    !((r + 1) * (r + 1) <= n),
            ;
        }
    }
}

/// Any `r` bracketed by `r^2 <= n < (r+1)^2` is the square root.
pub proof fn lemma_isqrt_unique(n: nat, r: nat)
    requires
        r * r <= n,
        (r + 1) * (r + 1) > n,
    ensures
        r == spec_isqrt(n),
{
    lemma_isqrt_bounds(n);
    let s = spec_isqrt(n);
    assert(r == s) by (nonlinear_arith)
        requires
            r * r <= n,
            (r + 1) * (r + 1) > n,
            s * s <= n,
            (s + 1) * (s + 1) > n,
            r >= 0,
            s >= 0,
    ;
}

/// The integer cube root, as a mathematical function.
pub open spec fn spec_icbrt(n: nat) -> nat
    decreases n,
{
    if n == 0 {
        0
    } else {
        let r = spec_icbrt((n - 1) as nat);
        if (r + 1) * (r + 1) * (r + 1) <= n {
            r + 1
        } else {
            r
        }
    }
}

#[verifier::spinoff_prover]
#[verifier::rlimit(60)]
pub proof fn lemma_icbrt_bounds(n: nat)
    ensures
        spec_icbrt(n) * spec_icbrt(n) * spec_icbrt(n) <= n,
        (spec_icbrt(n) + 1) * (spec_icbrt(n) + 1) * (spec_icbrt(n) + 1) > n,
    decreases n,
{
    if n == 0 {
        let s = spec_icbrt(n);
        assert(s == 0);
        assert((s + 1) * (s + 1) * (s + 1) > n) by (nonlinear_arith)
            requires
                s == 0,
                n == 0,
        ;
    } else {
        lemma_icbrt_bounds((n - 1) as nat);
        let r = spec_icbrt((n - 1) as nat);
        let s = spec_icbrt(n);
        if (r + 1) * (r + 1) * (r + 1) <= n {
            assert(s == r + 1);
            assert((s + 1) * (s + 1) * (s + 1) > n) by (nonlinear_arith)
                requires
                    s == r + 1,
                    (r + 1) * (r + 1) * (r + 1) > n - 1,
                    r >= 0,
            ;
        } else {
            assert(s == r);
            assert((s + 1) * (s + 1) * (s + 1) > n) by (nonlinear_arith)
                requires
                    s == r,
                    !((r + 1) * (r + 1) * (r + 1) <= n),
            ;
        }
    }
}

/// Any `r` bracketed by `r^3 <= n < (r+1)^3` is the cube root.
pub proof fn lemma_icbrt_unique(n: nat, r: nat)
    requires
        r * r * r <= n,
        (r + 1) * (r + 1) * (r + 1) > n,
    ensures
        r == spec_icbrt(n),
{
    lemma_icbrt_bounds(n);
    let s = spec_icbrt(n);
    assert(r == s) by (nonlinear_arith)
        requires
            r * r * r <= n,
            (r + 1) * (r + 1) * (r + 1) > n,
            s * s * s <= n,
            (s + 1) * (s + 1) * (s + 1) > n,
            r >= 0,
            s >= 0,
    ;
}

/// The integer square root: the greatest `r` with `r * r <= n`.
pub fn isqrt(n: u128) -> (r: u128)
    ensures
        r * r <= n,
        (r + 1) * (r + 1) > n,
        r < 18446744073709551616u128,
        r == spec_isqrt(n as nat),
{
    let mut lo: u128 = 0;
    let mut hi: u128 = 18446744073709551616u128;
    proof {
        assert((hi as int) * (hi as int) > n) by (nonlinear_arith)
            requires
                hi == 18446744073709551616u128,
                n <= u128::MAX,
                u128::MAX == 340282366920938463463374607431768211455u128,
        ;
    }
    while hi - lo > 1
        invariant
            0 <= lo < hi <= 18446744073709551616u128,
            lo * lo <= n,
            (hi as int) * (hi as int) > n,
        decreases hi - lo,
    {
        let mid = lo + (hi - lo) / 2;
        proof {
            assert(lo < mid < hi);
            assert(mid * mid <= u128::MAX) by (nonlinear_arith)
                requires
                    0 <= mid < 18446744073709551616u128,
                    u128::MAX == 340282366920938463463374607431768211455u128,
            ;
        }
        if mid * mid <= n {
            lo = mid;
        } else {
            hi = mid;
        }
    }
    proof {
        assert(hi == lo + 1);
        assert(((lo + 1) as int) * ((lo + 1) as int) > n);
        lemma_isqrt_unique(n as nat, lo as nat);
    }
    lo
}

/// The integer cube root: the greatest `r` with `r * r * r <= n`,
/// for `n` below `2^126`.
pub fn icbrt(n: u128) -> (r: u128)
    requires
        n < 85070591730234615865843651857942052864u128,
    ensures
        r * r * r <= n,
        (r + 1) * (r + 1) * (r + 1) > n,
        r < 4398046511104u128,
        r == spec_icbrt(n as nat),
{
    let mut lo: u128 = 0;
    let mut hi: u128 = 4398046511104u128;
    proof {
        assert((hi as int) * (hi as int) * (hi as int) > n) by (nonlinear_arith)
            requires
                hi == 4398046511104u128,
                n < 85070591730234615865843651857942052864u128,
        ;
    }
    while hi - lo > 1
        invariant
            0 <= lo < hi <= 4398046511104u128,
            lo * lo * lo <= n,
            (hi as int) * (hi as int) * (hi as int) > n,
        decreases hi - lo,
    {
        let mid = lo + (hi - lo) / 2;
        proof {
            assert(lo < mid < hi);
            assert(mid * mid <= u128::MAX && mid * mid * mid <= u128::MAX)
                by (nonlinear_arith)
                requires
                    0 <= mid < 4398046511104u128,
                    u128::MAX == 340282366920938463463374607431768211455u128,
            ;
        }
        if mid * mid * mid <= n {
            lo = mid;
        } else {
            hi = mid;
        }
    }
    proof {
        assert(hi == lo + 1);
        assert(((lo + 1) as int) * ((lo + 1) as int) * ((lo + 1) as int) > n);
        lemma_icbrt_unique(n as nat, lo as nat);
    }
    lo
}

} // verus!
