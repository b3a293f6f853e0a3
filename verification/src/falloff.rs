//! Fixed-point numerics for the rasterizer: an exact integer square root and
//! the shadow falloff curve.
//!
//! All fractional quantities use a fixed-point scale of 1024 units per one.
//! The falloff blends a smoothstep with an exponential decay; the exponential
//! is a monotone rational approximation (the reciprocal of a truncated power
//! series), so the whole curve is exactly non-increasing in the distance.

use vstd::prelude::*;
use vstd::arithmetic::div_mod::{lemma_div_is_ordered, lemma_div_is_ordered_by_denominator};

verus! {

/// Largest `r` with `r * r <= n`.
pub open spec fn sqrt_floor(n: nat) -> nat
    decreases n,
{
    if n == 0 {
        0
    } else {
        let p = sqrt_floor((n - 1) as nat);
        if (p + 1) * (p + 1) <= n {
            p + 1
        } else {
            p
        }
    }
}

pub proof fn lemma_sqrt_floor_bounds(n: nat)
    ensures
        sqrt_floor(n) * sqrt_floor(n) <= n,
        n < (sqrt_floor(n) + 1) * (sqrt_floor(n) + 1),
    decreases n,
{
    let s = sqrt_floor(n);
    if n == 0 {
        assert(s == 0);
        assert(n < (s + 1) * (s + 1)) by (nonlinear_arith)
            requires
                s == 0,
                n == 0,
        ;
    } else {
        lemma_sqrt_floor_bounds((n - 1) as nat);
        let p = sqrt_floor((n - 1) as nat);
        assert(p * p <= n - 1);
        assert(n - 1 < (p + 1) * (p + 1));
        if (p + 1) * (p + 1) <= n {
            assert(sqrt_floor(n) == p + 1);
            assert(n < ((p + 1) + 1) * ((p + 1) + 1)) by (nonlinear_arith)
                requires
                    (n - 1) < (p + 1) * (p + 1),
                    0 <= p,
            ;
            assert(sqrt_floor(n) * sqrt_floor(n) <= n);
            assert(n < (sqrt_floor(n) + 1) * (sqrt_floor(n) + 1));
        } else {
            assert(sqrt_floor(n) == p);
            assert(p * p <= n - 1 <= n);
            assert(sqrt_floor(n) * sqrt_floor(n) <= n);
            assert(n < (sqrt_floor(n) + 1) * (sqrt_floor(n) + 1));
        }
    }
}

pub proof fn lemma_sqrt_floor_unique(n: nat, r: nat)
    requires
        r * r <= n,
        n < (r + 1) * (r + 1),
    ensures
        r == sqrt_floor(n),
{
    lemma_sqrt_floor_bounds(n);
    let s = sqrt_floor(n);
    assert(r == s) by (nonlinear_arith)
        requires
            r * r <= n,
            n < (r + 1) * (r + 1),
            s * s <= n,
            n < (s + 1) * (s + 1),
            0 <= r,
            0 <= s,
    ;
}

pub proof fn lemma_sqrt_floor_mono(a: nat, b: nat)
    requires
        a <= b,
    ensures
        sqrt_floor(a) <= sqrt_floor(b),
{
    lemma_sqrt_floor_bounds(a);
    lemma_sqrt_floor_bounds(b);
    let sa = sqrt_floor(a);
    let sb = sqrt_floor(b);
    assert(sa <= sb) by (nonlinear_arith)
        requires
            sa * sa <= a,
            a <= b,
            b < (sb + 1) * (sb + 1),
            0 <= sa,
            0 <= sb,
    ;
}

/// The square root of an exact square.
pub proof fn lemma_sqrt_floor_square(k: nat)
    ensures
        sqrt_floor(k * k) == k,
{
    assert(k * k < (k + 1) * (k + 1)) by (nonlinear_arith);
    lemma_sqrt_floor_unique(k * k, k);
}

/// Binary-search integer square root.
pub fn isqrt(n: u64) -> (r: u64)
    ensures
        r == sqrt_floor(n as nat),
        r <= 4294967295,
{
    let mut lo: u64 = 0;
    let mut hi: u64 = 4294967296;
    proof {
        assert((n as nat) < 4294967296 * 4294967296) by (nonlinear_arith)
            requires
                n <= u64::MAX,
        ;
    }
    while lo + 1 < hi
        invariant
            lo < hi <= 4294967296,
            (lo as nat) * (lo as nat) <= n as nat,
            (n as nat) < (hi as nat) * (hi as nat),
        decreases hi - lo,
    {
        let mid = lo + (hi - lo) / 2;
        proof {
            assert((mid as nat) * (mid as nat) <= 4294967295 * 4294967295) by (nonlinear_arith)
                requires
                    mid <= 4294967295,
            ;
        }
        let sq = mid * mid;
        if sq <= n {
            lo = mid;
        } else {
            hi = mid;
        }
    }
    proof {
        lemma_sqrt_floor_unique(n as nat, lo as nat);
    }
    lo
}

/// Smoothstep complement at `t` (scale 1024): `1 - (3t^2 - 2t^3)` over the
/// unit interval, kept as an exact integer polynomial over a common power of
/// the scale.
pub open spec fn smooth_part(t: int) -> int
    recommends
        0 <= t <= 1024,
{
    (1073741824 - 3 * t * t * 1024 + 2 * t * t * t) / 1048576
}

/// Denominator of the exponential approximation at `u = 3t` (scale 1024):
/// the power series of `e^u` truncated after the fourth-order term, scaled so
/// every coefficient is an integer.
pub open spec fn exp_denom(u: int) -> int {
    26388279066624 + 25769803776 * u + 12582912 * u * u + 4096 * u * u * u + u * u * u * u
}

/// Monotone approximation of `e^{-3t}` (scale 1024): the reciprocal of the
/// truncated series for `e^{3t}`.
pub open spec fn exp_part(t: int) -> int {
    27021597764222976int / exp_denom(3 * t)
}

/// Shadow falloff at distance `inner` from the cutout edge, for a blur radius
/// `blur`, both in 1/1024 pixel units; result on the 0..=1024 scale.
/// Full strength at the edge, exactly zero at and beyond the blur radius, and
/// in between a 7:3 blend of smoothstep and exponential decay.
pub open spec fn spec_falloff(inner: int, blur: int) -> int
    recommends
        1024 <= blur,
{
    if inner <= 0 {
        1024
    } else if inner >= blur {
        0
    } else {
        let t = inner * 1024 / blur;
        (7 * smooth_part(t) + 3 * exp_part(t)) / 10
    }
}

proof fn lemma_t_range(inner: int, blur: int)
    requires
        0 < inner < blur,
        1024 <= blur,
    ensures
        0 <= inner * 1024 / blur <= 1023,
{
    let t = inner * 1024 / blur;
    assert(0 <= t) by (nonlinear_arith)
        requires
            0 < inner,
            0 < blur,
            t == inner * 1024 / blur,
    ;
    assert(inner * 1024 <= (blur - 1) * 1024) by (nonlinear_arith)
        requires
            inner <= blur - 1,
    ;
    lemma_div_is_ordered(inner * 1024, (blur - 1) * 1024, blur);
    assert((blur - 1) * 1024 == blur * 1024 - 1024);
    assert((blur * 1024 - 1024) / blur <= 1023) by (nonlinear_arith)
        requires
            1024 <= blur,
    ;
}

proof fn lemma_smooth_range(t: int)
    requires
        0 <= t <= 1024,
    ensures
        0 <= smooth_part(t) <= 1024,
{
    let num = 1073741824 - 3 * t * t * 1024 + 2 * t * t * t;
    assert(0 <= num && num <= 1073741824) by (nonlinear_arith)
        requires
            0 <= t <= 1024,
            num == 1073741824 - 3 * t * t * 1024 + 2 * t * t * t,
    ;
    lemma_div_is_ordered(0, num, 1048576);
    lemma_div_is_ordered(num, 1073741824, 1048576);
}

proof fn lemma_smooth_mono(t1: int, t2: int)
    requires
        0 <= t1 <= t2 <= 1024,
    ensures
        smooth_part(t1) >= smooth_part(t2),
{
    let n1 = 1073741824 - 3 * t1 * t1 * 1024 + 2 * t1 * t1 * t1;
    let n2 = 1073741824 - 3 * t2 * t2 * 1024 + 2 * t2 * t2 * t2;
    assert(n2 <= n1) by (nonlinear_arith)
        requires
            0 <= t1 <= t2 <= 1024,
            n1 == 1073741824 - 3 * t1 * t1 * 1024 + 2 * t1 * t1 * t1,
            n2 == 1073741824 - 3 * t2 * t2 * 1024 + 2 * t2 * t2 * t2,
    ;
    lemma_div_is_ordered(n2, n1, 1048576);
}

proof fn lemma_exp_denom_range(u: int)
    requires
        0 <= u <= 3072,
    ensures
        26388279066624 <= exp_denom(u),
    decreases u,
{
    assert(0 <= 25769803776 * u + 12582912 * u * u + 4096 * u * u * u + u * u * u * u)
        by (nonlinear_arith)
        requires
            0 <= u,
    ;
}

proof fn lemma_exp_range(t: int)
    requires
        0 <= t <= 1024,
    ensures
        0 <= exp_part(t) <= 1024,
{
    lemma_exp_denom_range(3 * t);
    let d = exp_denom(3 * t);
    lemma_div_is_ordered_by_denominator(27021597764222976, 26388279066624, d);
    assert(27021597764222976int / 26388279066624 == 1024);
    lemma_div_is_ordered(0, 27021597764222976, d);
}

proof fn lemma_exp_mono(t1: int, t2: int)
    requires
        0 <= t1 <= t2 <= 1024,
    ensures
        exp_part(t1) >= exp_part(t2),
{
    let d1 = exp_denom(3 * t1);
    let d2 = exp_denom(3 * t2);
    lemma_exp_denom_range(3 * t1);
    lemma_exp_denom_range(3 * t2);
    assert(d1 <= d2) by (nonlinear_arith)
        requires
            0 <= t1 <= t2,
            d1 == exp_denom(3 * t1),
            d2 == exp_denom(3 * t2),
            d1 == 26388279066624 + 25769803776 * (3 * t1) + 12582912 * (3 * t1) * (3 * t1)
                + 4096 * (3 * t1) * (3 * t1) * (3 * t1) + (3 * t1) * (3 * t1) * (3 * t1) * (3
                * t1),
            d2 == 26388279066624 + 25769803776 * (3 * t2) + 12582912 * (3 * t2) * (3 * t2)
                + 4096 * (3 * t2) * (3 * t2) * (3 * t2) + (3 * t2) * (3 * t2) * (3 * t2) * (3
                * t2),
    ;
    lemma_div_is_ordered_by_denominator(27021597764222976, d1, d2);
}

/// The falloff stays on its scale.
pub proof fn lemma_falloff_range(inner: int, blur: int)
    requires
        1024 <= blur,
    ensures
        0 <= spec_falloff(inner, blur) <= 1024,
{
    if inner <= 0 || inner >= blur {
    } else {
        lemma_t_range(inner, blur);
        let t = inner * 1024 / blur;
        lemma_smooth_range(t);
        lemma_exp_range(t);
        let s = 7 * smooth_part(t) + 3 * exp_part(t);
        lemma_div_is_ordered(0, s, 10);
        lemma_div_is_ordered(s, 10240, 10);
    }
}

/// Full strength where the distance vanishes: at the cutout edge a shadow of
/// opacity `o` is written with exactly `o`.
pub proof fn lemma_falloff_at_edge(blur: int)
    requires
        1024 <= blur,
    ensures
        spec_falloff(0, blur) == 1024,
{
}

/// Exactly zero at and beyond the blur radius.
pub proof fn lemma_falloff_beyond_blur(inner: int, blur: int)
    requires
        1024 <= blur,
        inner >= blur,
    ensures
        spec_falloff(inner, blur) == 0,
{
}

/// The falloff is non-increasing in the distance from the edge.
pub proof fn lemma_falloff_monotone(i1: int, i2: int, blur: int)
    requires
        0 <= i1 <= i2,
        1024 <= blur,
    ensures
        spec_falloff(i1, blur) >= spec_falloff(i2, blur),
{
    lemma_falloff_range(i1, blur);
    lemma_falloff_range(i2, blur);
    if i1 <= 0 || i2 >= blur {
    } else {
        // both strictly inside (0, blur)
        let t1 = i1 * 1024 / blur;
        let t2 = i2 * 1024 / blur;
        lemma_t_range(i1, blur);
        lemma_t_range(i2, blur);
        assert(i1 * 1024 <= i2 * 1024) by (nonlinear_arith)
            requires
                i1 <= i2,
        ;
        lemma_div_is_ordered(i1 * 1024, i2 * 1024, blur);
        lemma_smooth_mono(t1, t2);
        lemma_exp_mono(t1, t2);
        lemma_div_is_ordered(
            7 * smooth_part(t2) + 3 * exp_part(t2),
            7 * smooth_part(t1) + 3 * exp_part(t1),
            10,
        );
    }
}

/// Executable falloff; computes exactly `spec_falloff`.
pub fn shadow_falloff(inner: u64, blur: u64) -> (f: u64)
    requires
        1024 <= blur <= 15360,
    ensures
        f == spec_falloff(inner as int, blur as int),
        f <= 1024,
{
    proof {
        lemma_falloff_range(inner as int, blur as int);
    }
    if inner == 0 {
        1024
    } else if inner >= blur {
        0
    } else {
        proof {
            lemma_t_range(inner as int, blur as int);
        }
        let t = inner * 1024 / blur;
        proof {
            assert(t * t <= 1046529) by (nonlinear_arith)
                requires
                    0 <= t <= 1023,
            ;
        }
        let t2 = t * t;
        proof {
            assert(t2 * t <= 1070599167) by (nonlinear_arith)
                requires
                    0 <= t <= 1023,
                    t2 == t * t,
            ;
        }
        let t3 = t2 * t;
        proof {
            assert(1073741824 + 2 * t3 >= 3 * t2 * 1024) by (nonlinear_arith)
                requires
                    0 <= t <= 1023,
                    t2 == t * t,
                    t3 == t2 * t,
            ;
        }
        let smooth_num = 1073741824 + 2 * t3 - 3 * t2 * 1024;
        let smooth = smooth_num / 1048576;
        let u = 3 * t;
        proof {
            assert(u * u <= 9431481) by (nonlinear_arith)
                requires
                    0 <= u <= 3071,
            ;
        }
        let u2 = u * u;
        proof {
            assert(u2 * u <= 28964078151) by (nonlinear_arith)
                requires
                    0 <= u <= 3071,
                    u2 == u * u,
            ;
        }
        let u3 = u2 * u;
        proof {
            assert(u3 * u <= 88948884021721) by (nonlinear_arith)
                requires
                    0 <= u <= 3071,
                    u2 == u * u,
                    u3 == u2 * u,
            ;
        }
        let u4 = u3 * u;
        proof {
            assert(0 <= u2 && 0 <= u3 && 0 <= u4);
            lemma_exp_denom_range(u as int);
        }
        let d = 26388279066624 + 25769803776 * u + 12582912 * u2 + 4096 * u3 + u4;
        let e = 27021597764222976 / d;
        proof {
            let ti = t as int;
            assert(3 * ti * ti * 1024 == 3 * t2 * 1024 && 2 * ti * ti * ti == 2 * t3)
                by (nonlinear_arith)
                requires
                    t2 == ti * ti,
                    t3 == t2 * ti,
            ;
            assert(smooth == smooth_part(ti));
            let ui = u as int;
            assert(12582912 * ui * ui == 12582912 * u2 && 4096 * ui * ui * ui == 4096 * u3 && ui
                * ui * ui * ui == u4) by (nonlinear_arith)
                requires
                    u2 == ui * ui,
                    u3 == u2 * ui,
                    u4 == u3 * ui,
            ;
            assert(d == exp_denom(3 * ti));
            lemma_smooth_range(ti);
            lemma_exp_range(ti);
            assert(e == exp_part(ti));
        }
        (7 * smooth + 3 * e) / 10
    }
}

/// Shadow strength: the configured opacity scaled by the falloff, both in
/// 1/1024 units.
pub open spec fn spec_shadow_strength(opacity: int, inner: int, blur: int) -> int
    recommends
        0 <= opacity <= 1024,
        1024 <= blur,
{
    opacity * spec_falloff(inner, blur) / 1024
}

/// At the cutout edge the strength is exactly the configured opacity.
pub proof fn lemma_strength_at_edge(opacity: int, blur: int)
    requires
        0 <= opacity <= 1024,
        1024 <= blur,
    ensures
        spec_shadow_strength(opacity, 0, blur) == opacity,
{
    assert(opacity * 1024 / 1024 == opacity) by (nonlinear_arith)
        requires
            0 <= opacity,
    ;
}

/// Strength inherits the falloff's bounds and monotonicity.
pub proof fn lemma_strength_range(opacity: int, inner: int, blur: int)
    requires
        0 <= opacity <= 1024,
        1024 <= blur,
    ensures
        0 <= spec_shadow_strength(opacity, inner, blur) <= 1024,
{
    lemma_falloff_range(inner, blur);
    let f = spec_falloff(inner, blur);
    assert(0 <= opacity * f <= 1024 * 1024) by (nonlinear_arith)
        requires
            0 <= opacity <= 1024,
            0 <= f <= 1024,
    ;
    lemma_div_is_ordered(0, opacity * f, 1024);
    lemma_div_is_ordered(opacity * f, 1048576int, 1024);
}

pub proof fn lemma_strength_monotone(opacity: int, i1: int, i2: int, blur: int)
    requires
        0 <= opacity <= 1024,
        0 <= i1 <= i2,
        1024 <= blur,
    ensures
        spec_shadow_strength(opacity, i1, blur) >= spec_shadow_strength(opacity, i2, blur),
{
    lemma_falloff_monotone(i1, i2, blur);
    lemma_falloff_range(i2, blur);
    let f1 = spec_falloff(i1, blur);
    let f2 = spec_falloff(i2, blur);
    assert(opacity * f2 <= opacity * f1) by (nonlinear_arith)
        requires
            0 <= opacity,
            f2 <= f1,
    ;
    lemma_div_is_ordered(opacity * f2, opacity * f1, 1024);
}

/// Executable strength; computes exactly `spec_shadow_strength`.
pub fn shadow_strength(opacity: u16, inner: u64, blur: u64) -> (s: u64)
    requires
        opacity <= 1024,
        1024 <= blur <= 15360,
    ensures
        s == spec_shadow_strength(opacity as int, inner as int, blur as int),
        s <= 1024,
{
    proof {
        lemma_strength_range(opacity as int, inner as int, blur as int);
    }
    let f = shadow_falloff(inner, blur);
    (opacity as u64) * f / 1024
}

} // verus!
