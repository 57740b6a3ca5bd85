//! The Planckian locus the white-balance temperature slider walks: the CIE
//! 1931 chromaticity of a blackbody radiator at a given colour temperature,
//! after the cubic spline fit of Kim et al. (2002).
//!
//! Temperatures are in millikelvin and chromaticity coordinates in units of
//! 10⁻⁹. Each coordinate is the exact value of the fit, rounded down: the
//! polynomials are evaluated with integer coefficients over a common
//! denominator, so the only rounding is the final division.
use vstd::prelude::*;

use vstd::arithmetic::div_mod::lemma_fundamental_div_mod_converse;

verus! {

/// Temperatures below this (1000 K) are clamped to it; the fit is published
/// from 1667 K and doubles back well below that.
pub const LOCUS_MIN_MILLIKELVIN: u32 = 1_000_000;

/// Chromaticity coordinates are counted in units of 10⁻⁹.
pub const CHROMATICITY_SCALE: i64 = 1_000_000_000;

/// The temperature the fit is evaluated at.
pub open spec fn clamped_temperature(t_mk: u32) -> int {
    if t_mk < LOCUS_MIN_MILLIKELVIN {
        LOCUS_MIN_MILLIKELVIN as int
    } else {
        t_mk as int
    }
}

/// `x · 10⁹ · t³` for the fit at `t` millikelvin, where Kim et al. give
/// x = −0.2661239·10⁹/T³ − 0.2343589·10⁶/T² + 0.8776956·10³/T + 0.179910
/// below 4000 K and
/// x = −3.0258469·10⁹/T³ + 2.1070379·10⁶/T² + 0.2226347·10³/T + 0.240390
/// from 4000 K, with T = t / 1000.
pub open spec fn x_numerator(t: int) -> int {
    if t < 4_000_000 {
        -266_123_900_000_000_000_000_000_000 - 234_358_900_000_000_000_000 * t
            + 877_695_600_000_000 * (t * t) + 179_910_000 * (t * t * t)
    } else {
        -3_025_846_900_000_000_000_000_000_000 + 2_107_037_900_000_000_000_000 * t
            + 222_634_700_000_000 * (t * t) + 240_390_000 * (t * t * t)
    }
}

/// The x coordinate of the locus at `t_mk` millikelvin, in units of 10⁻⁹,
/// rounded down.
pub open spec fn locus_x(t_mk: u32) -> int {
    let t = clamped_temperature(t_mk);
    x_numerator(t) / (t * t * t)
}

/// The cubic y(x) of Kim et al. for the branch containing `t` millikelvin, as
/// coefficients scaled by 10⁸ (cubic, square, linear, constant):
/// below 2222 K (−1.1063814, −1.34811020, 2.18555832, −0.20219683),
/// below 4000 K (−0.9549476, −1.37418593, 2.09137015, −0.16748867),
/// otherwise (3.0817580, −5.87338670, 3.75112997, −0.37001483).
pub open spec fn y_coefficients(t: int) -> (int, int, int, int) {
    if t < 2_222_000 {
        (-110_638_140, -134_811_020, 218_555_832, -20_219_683)
    } else if t < 4_000_000 {
        (-95_494_760, -137_418_593, 209_137_015, -16_748_867)
    } else {
        (308_175_800, -587_338_670, 375_112_997, -37_001_483)
    }
}

/// `y · 10²⁶` given `x` in units of 10⁻⁹, for the branch containing `t`.
pub open spec fn y_numerator(x: int, t: int) -> int {
    let (d3, d2, d1, d0) = y_coefficients(t);
    d3 * (x * x * x) + d2 * (x * x) * 1_000_000_000 + d1 * x * 1_000_000_000_000_000_000
        + d0 * 1_000_000_000_000_000_000_000_000_000
}

/// The y coordinate of the locus at `t_mk` millikelvin, in units of 10⁻⁹,
/// rounded down, evaluated at the rounded x.
pub open spec fn locus_y(t_mk: u32) -> int {
    y_numerator(locus_x(t_mk), clamped_temperature(t_mk)) / 100_000_000_000_000_000_000_000_000
}

/// `n / d` rounded down.
fn floor_div(n: i128, d: i128) -> (q: i128)
    requires
        d > 0,
        n > i128::MIN,
    ensures
        q == n / d,
{
    let du = d as u128;
    if n >= 0 {
        let nu = n as u128;
        let q = nu / du;
        let r = nu % du;
        proof {
            vstd::arithmetic::div_mod::lemma_fundamental_div_mod(nu as int, du as int);
            vstd::arithmetic::div_mod::lemma_mod_pos_bound(nu as int, du as int);
            assert(q <= nu) by (nonlinear_arith)
                requires q == nu as int / du as int, du >= 1, nu >= 0;
        }
        q as i128
    } else {
        let m = (-n) as u128;
        let c = m / du;
        let r = m % du;
        proof {
            vstd::arithmetic::div_mod::lemma_fundamental_div_mod(m as int, du as int);
            vstd::arithmetic::div_mod::lemma_mod_pos_bound(m as int, du as int);
            assert(c <= m) by (nonlinear_arith)
                requires c == m as int / du as int, du >= 1, m >= 0;
            assert(m == du * c + r);
        }
        if r == 0 {
            proof {
                assert(n == d * (-(c as int)) + 0) by (nonlinear_arith)
                    requires n == -(m as int), m == du * c + r, r == 0, du == d;
                lemma_fundamental_div_mod_converse(n as int, d as int, -(c as int), 0);
            }
            -(c as i128)
        } else {
            proof {
                assert(n == (-(c as int) - 1) * d + (d - r)) by (nonlinear_arith)
                    requires n == -(m as int), m == du * c + r, du == d;
                lemma_fundamental_div_mod_converse(n as int, d as int, -(c as int) - 1, d - r);
            }
            -(c as i128) - 1
        }
    }
}

proof fn lemma_x_bounded(t: int)
    requires
        1_000_000 <= t <= u32::MAX,
    ensures
        t * t * t > 0,
        t * t <= 18_446_744_073_709_551_616,
        t * t * t <= 79_228_162_514_264_337_593_543_950_336,
        -2_000_000_000 * (t * t * t) <= x_numerator(t) <= 2_000_000_000 * (t * t * t),
        -2_000_000_000 <= x_numerator(t) / (t * t * t) <= 2_000_000_000,
{
    let t2 = t * t;
    let t3 = t * t * t;
    assert(t2 >= 1_000_000 * t && t2 <= 18_446_744_073_709_551_616) by (nonlinear_arith)
        requires 1_000_000 <= t <= 4_294_967_296, t2 == t * t;
    assert(t2 >= 1_000_000_000_000) by (nonlinear_arith)
        requires t2 >= 1_000_000 * t, t >= 1_000_000;
    assert(t3 == t2 * t && t3 >= 1_000_000 * t2 && t3 <= 79_228_162_514_264_337_593_543_950_336) by (nonlinear_arith)
        requires 1_000_000 <= t <= 4_294_967_296, t2 == t * t, t3 == t * t * t, 0 <= t2 <= 18_446_744_073_709_551_616;
    assert(t3 >= 1_000_000_000_000 * t) by (nonlinear_arith)
        requires t3 == t2 * t, t2 >= 1_000_000_000_000, t >= 0;
    assert(t3 >= 1_000_000_000_000_000_000) by (nonlinear_arith)
        requires t3 >= 1_000_000 * t2, t2 >= 1_000_000_000_000;
    let n = x_numerator(t);
    if t < 4_000_000 {
        assert(-266_123_900_000_000_000_000_000_000 >= -270_000_000 * t3);
        assert(234_358_900_000_000_000_000 * t <= 240_000_000 * t3) by (nonlinear_arith)
            requires t3 >= 1_000_000_000_000 * t, t >= 0;
        assert(877_695_600_000_000 * (t * t) <= 880_000_000 * t3) by (nonlinear_arith)
            requires t3 >= 1_000_000 * t2, t2 == t * t, t2 >= 0;
        assert(0 <= 877_695_600_000_000 * (t * t)) by (nonlinear_arith)
            requires t2 == t * t, t2 >= 0;
        assert(0 <= 234_358_900_000_000_000_000 * t);
    } else {
        assert(t2 >= 4_000_000 * t) by (nonlinear_arith)
            requires t2 == t * t, t >= 4_000_000;
        assert(t2 >= 16_000_000_000_000) by (nonlinear_arith)
            requires t2 >= 4_000_000 * t, t >= 4_000_000;
        assert(t3 >= 4_000_000 * t2) by (nonlinear_arith)
            requires t3 == t2 * t, t >= 4_000_000, t2 >= 0;
        assert(t3 >= 16_000_000_000_000 * t) by (nonlinear_arith)
            requires t3 == t2 * t, t2 >= 16_000_000_000_000, t >= 0;
        assert(t3 >= 64_000_000_000_000_000_000) by (nonlinear_arith)
            requires t3 >= 4_000_000 * t2, t2 >= 16_000_000_000_000;
        assert(3_025_846_900_000_000_000_000_000_000 <= 50_000_000 * t3);
        assert(2_107_037_900_000_000_000_000 * t <= 140_000_000 * t3) by (nonlinear_arith)
            requires t3 >= 16_000_000_000_000 * t, t >= 0;
        assert(222_634_700_000_000 * (t * t) <= 60_000_000 * t3) by (nonlinear_arith)
            requires t3 >= 4_000_000 * t2, t2 == t * t, t2 >= 0;
        assert(0 <= 222_634_700_000_000 * (t * t)) by (nonlinear_arith)
            requires t2 == t * t, t2 >= 0;
        assert(0 <= 2_107_037_900_000_000_000_000 * t);
    }
    assert(-2_000_000_000 * t3 <= n <= 2_000_000_000 * t3);
    let q = n / t3;
    vstd::arithmetic::div_mod::lemma_fundamental_div_mod(n, t3);
    vstd::arithmetic::div_mod::lemma_mod_bound(n, t3);
    assert(t3 * q == q * t3) by (nonlinear_arith);
    if q < -2_000_000_000 {
        assert(q * t3 <= -2_000_000_001 * t3) by (nonlinear_arith)
            requires q <= -2_000_000_001, t3 > 0;
    }
    if q > 2_000_000_000 {
        assert(q * t3 >= 2_000_000_001 * t3) by (nonlinear_arith)
            requires q >= 2_000_000_001, t3 > 0;
    }
}

proof fn lemma_y_terms_bounded(x: int, t: int)
    requires
        -2_000_000_000 <= x <= 2_000_000_000,
    ensures
        0 <= x * x <= 4_000_000_000_000_000_000,
        -8_000_000_000_000_000_000_000_000_000 <= x * x * x <= 8_000_000_000_000_000_000_000_000_000,
        ({
            let (d3, d2, d1, d0) = y_coefficients(t);
            &&& -4_800_000_000_000_000_000_000_000_000_000_000_000 <= d3 * (x * x * x)
                <= 4_800_000_000_000_000_000_000_000_000_000_000_000
            &&& -2_400_000_000_000_000_000_000_000_000 <= d2 * (x * x)
                <= 2_400_000_000_000_000_000_000_000_000
            &&& -1_200_000_000_000_000_000 <= d1 * x <= 1_200_000_000_000_000_000
        }),
{
    let x2 = x * x;
    let x3 = x * x * x;
    assert(0 <= x2 <= 4_000_000_000_000_000_000) by (nonlinear_arith)
        requires -2_000_000_000 <= x <= 2_000_000_000, x2 == x * x;
    assert(-8_000_000_000_000_000_000_000_000_000 <= x3 <= 8_000_000_000_000_000_000_000_000_000) by (nonlinear_arith)
        requires -2_000_000_000 <= x <= 2_000_000_000, x3 == x * x * x, 0 <= x * x <= 4_000_000_000_000_000_000;
    let (d3, d2, d1, d0) = y_coefficients(t);
    assert(-600_000_000 <= d3 <= 600_000_000 && -600_000_000 <= d2 <= 600_000_000 && -600_000_000 <= d1 <= 600_000_000);
    assert(-4_800_000_000_000_000_000_000_000_000_000_000_000 <= d3 * x3 <= 4_800_000_000_000_000_000_000_000_000_000_000_000) by (nonlinear_arith)
        requires -600_000_000 <= d3 <= 600_000_000, -8_000_000_000_000_000_000_000_000_000 <= x3 <= 8_000_000_000_000_000_000_000_000_000;
    assert(-2_400_000_000_000_000_000_000_000_000 <= d2 * x2 <= 2_400_000_000_000_000_000_000_000_000) by (nonlinear_arith)
        requires -600_000_000 <= d2 <= 600_000_000, 0 <= x2 <= 4_000_000_000_000_000_000;
    assert(-1_200_000_000_000_000_000 <= d1 * x <= 1_200_000_000_000_000_000) by (nonlinear_arith)
        requires -600_000_000 <= d1 <= 600_000_000, -2_000_000_000 <= x <= 2_000_000_000;
}

fn x_at(tc: u32) -> (x: i128)
    requires
        tc >= LOCUS_MIN_MILLIKELVIN,
    ensures
        x == x_numerator(tc as int) / (tc * tc * tc),
        -2_000_000_000 <= x <= 2_000_000_000,
{
    let t = tc as i128;
    proof {
        lemma_x_bounded(t as int);
    }
    let t2 = t * t;
    let t3 = t2 * t;
    assert(t3 == t * t * t);
    let num: i128 = if tc < 4_000_000 {
        let a = 234_358_900_000_000_000_000i128 * t;
        let b = 877_695_600_000_000i128 * t2;
        let c = 179_910_000i128 * t3;
        -266_123_900_000_000_000_000_000_000i128 - a + b + c
    } else {
        let a = 2_107_037_900_000_000_000_000i128 * t;
        let b = 222_634_700_000_000i128 * t2;
        let c = 240_390_000i128 * t3;
        -3_025_846_900_000_000_000_000_000_000i128 + a + b + c
    };
    assert(num == x_numerator(t as int));
    floor_div(num, t3)
}

#[verifier::rlimit(30)]
fn y_at(x: i128, tc: u32) -> (y: i128)
    requires
        -2_000_000_000 <= x <= 2_000_000_000,
    ensures
        y == y_numerator(x as int, tc as int) / 100_000_000_000_000_000_000_000_000,
        -100_000_000_000 <= y <= 100_000_000_000,
{
    proof {
        lemma_y_terms_bounded(x as int, tc as int);
    }
    let (d3, d2, d1, d0): (i128, i128, i128, i128) = if tc < 2_222_000 {
        (-110_638_140, -134_811_020, 218_555_832, -20_219_683)
    } else if tc < 4_000_000 {
        (-95_494_760, -137_418_593, 209_137_015, -16_748_867)
    } else {
        (308_175_800, -587_338_670, 375_112_997, -37_001_483)
    };
    assert((d3 as int, d2 as int, d1 as int, d0 as int) == y_coefficients(tc as int));
    let x2 = x * x;
    let x3 = x2 * x;
    assert(x3 == x * x * x);
    let p3 = d3 * x3;
    let p2 = d2 * x2 * 1_000_000_000;
    let p1 = d1 * x * 1_000_000_000_000_000_000;
    let p0 = d0 * 1_000_000_000_000_000_000_000_000_000;
    let yn = p3 + p2 + p1 + p0;
    assert(yn == y_numerator(x as int, tc as int));
    let y = floor_div(yn, 100_000_000_000_000_000_000_000_000);
    assert(-100_000_000_000 <= y <= 100_000_000_000) by {
        let dn: int = 100_000_000_000_000_000_000_000_000;
        assert(-10_000_000_000_000_000_000_000_000_000_000_000_000 <= yn <= 10_000_000_000_000_000_000_000_000_000_000_000_000);
        vstd::arithmetic::div_mod::lemma_fundamental_div_mod(yn as int, dn);
        vstd::arithmetic::div_mod::lemma_mod_bound(yn as int, dn);
        assert(dn * (yn as int / dn) == (yn as int / dn) * dn) by (nonlinear_arith);
        if (y as int) < -100_000_000_000 {
            assert((yn as int / dn) * dn <= -100_000_000_001 * dn) by (nonlinear_arith)
                requires yn as int / dn <= -100_000_000_001, dn > 0;
        }
        if (y as int) > 100_000_000_000 {
            assert((yn as int / dn) * dn >= 100_000_000_001 * dn) by (nonlinear_arith)
                requires yn as int / dn >= 100_000_000_001, dn > 0;
        }
    }
    y
}

/// The chromaticity (x, y) of a blackbody at `t_mk` millikelvin, each in
/// units of 10⁻⁹ and rounded down; see [`locus_x`] and [`locus_y`].
pub fn locus_chromaticity(t_mk: u32) -> (xy: (i64, i64))
    ensures
        xy.0 == locus_x(t_mk),
        xy.1 == locus_y(t_mk),
{
    let tc: u32 = if t_mk < LOCUS_MIN_MILLIKELVIN { LOCUS_MIN_MILLIKELVIN } else { t_mk };
    let x = x_at(tc);
    let y = y_at(x, tc);
    (x as i64, y as i64)
}

// ── Monotonicity ─────────────────────────────────────────────────────────────

/// The fit's x polynomial below 4000 K, `x · 10⁹ · t³`, at any `t`.
pub open spec fn x_low_numerator(t: int) -> int {
    -266_123_900_000_000_000_000_000_000 - 234_358_900_000_000_000_000 * t
        + 877_695_600_000_000 * (t * t) + 179_910_000 * (t * t * t)
}

/// The fit's x polynomial from 4000 K, `x · 10⁹ · t³`, at any `t`.
pub open spec fn x_high_numerator(t: int) -> int {
    -3_025_846_900_000_000_000_000_000_000 + 2_107_037_900_000_000_000_000 * t
        + 222_634_700_000_000 * (t * t) + 240_390_000 * (t * t * t)
}

proof fn lemma_distribute4(a: int, b: int, c: int, e: int, x: int)
    ensures
        (a + b + c + e) * x == a * x + b * x + c * x + e * x,
{
    assert((a + b + c + e) * x == a * x + b * x + c * x + e * x) by (nonlinear_arith);
}

proof fn lemma_reassociate(a: int, b: int, c: int)
    ensures
        (a * b) * c == a * (b * c),
{
    assert((a * b) * c == a * (b * c)) by (nonlinear_arith);
}

proof fn lemma_factor3(d: int, u: int, v: int, w: int, k3: int, k2: int, k1: int)
    ensures
        k3 * (d * u) + k2 * (d * v) + k1 * (d * w) == d * (k1 * w + k2 * v + k3 * u),
{
    lemma_swap_factor(k3, d, u);
    lemma_swap_factor(k2, d, v);
    lemma_swap_factor(k1, d, w);
    let x = k1 * w;
    let y = k2 * v;
    let z = k3 * u;
    assert(d * (x + y + z) == d * x + d * y + d * z) by (nonlinear_arith);
}

proof fn lemma_swap_factor(k: int, d: int, u: int)
    ensures
        k * (d * u) == d * (k * u),
{
    assert(k * (d * u) == d * (k * u)) by (nonlinear_arith);
}

proof fn lemma_cube_difference(a3: int, a2: int, a1: int, a0: int, t1: int, t2: int)
    ensures
        (a3 + a2 * t1 + a1 * (t1 * t1) + a0 * (t1 * t1 * t1)) * (t2 * t2 * t2) - (a3 + a2 * t2 + a1
            * (t2 * t2) + a0 * (t2 * t2 * t2)) * (t1 * t1 * t1) == (t2 - t1) * (a1 * ((t1 * t2) * (
        t1 * t2)) + a2 * ((t1 * t2) * (t1 + t2)) + a3 * (t1 * t1 + t1 * t2 + t2 * t2)),
{
    let c1 = t1 * t1 * t1;
    let c2 = t2 * t2 * t2;
    let s1 = t1 * t1;
    let s2 = t2 * t2;
    let p = t1 * t2;
    lemma_distribute4(a3, a2 * t1, a1 * s1, a0 * c1, c2);
    lemma_distribute4(a3, a2 * t2, a1 * s2, a0 * c2, c1);
    lemma_reassociate(a2, t1, c2);
    lemma_reassociate(a2, t2, c1);
    lemma_reassociate(a1, s1, c2);
    lemma_reassociate(a1, s2, c1);
    lemma_reassociate(a0, c1, c2);
    lemma_reassociate(a0, c2, c1);
    assert(c1 * c2 == c2 * c1) by (nonlinear_arith);
    assert(c2 - c1 == (t2 - t1) * (t1 * t1 + t1 * t2 + t2 * t2)) by (nonlinear_arith)
        requires c1 == t1 * t1 * t1, c2 == t2 * t2 * t2;
    assert(t1 * c2 - t2 * c1 == (t2 - t1) * (p * (t1 + t2))) by (nonlinear_arith)
        requires c1 == t1 * t1 * t1, c2 == t2 * t2 * t2, p == t1 * t2;
    assert(s1 * c2 - s2 * c1 == (t2 - t1) * (p * p)) by (nonlinear_arith)
        requires c1 == t1 * t1 * t1, c2 == t2 * t2 * t2, p == t1 * t2, s1 == t1 * t1, s2 == t2 * t2;
    let d = t2 - t1;
    let q = t1 * t1 + t1 * t2 + t2 * t2;
    assert(a3 * (c2 - c1) == a3 * (d * q)) by (nonlinear_arith)
        requires c2 - c1 == d * q;
    assert(a2 * (t1 * c2 - t2 * c1) == a2 * (d * (p * (t1 + t2)))) by (nonlinear_arith)
        requires t1 * c2 - t2 * c1 == d * (p * (t1 + t2));
    assert(a1 * (s1 * c2 - s2 * c1) == a1 * (d * (p * p))) by (nonlinear_arith)
        requires s1 * c2 - s2 * c1 == d * (p * p);
    lemma_factor3(d, q, p * (t1 + t2), p * p, a3, a2, a1);
    assert(a3 * (c2 - c1) == a3 * c2 - a3 * c1) by (nonlinear_arith);
    assert(a2 * (t1 * c2 - t2 * c1) == a2 * (t1 * c2) - a2 * (t2 * c1)) by (nonlinear_arith);
    assert(a1 * (s1 * c2 - s2 * c1) == a1 * (s1 * c2) - a1 * (s2 * c1)) by (nonlinear_arith);
}

/// Below 4000 K the fit's x falls as the temperature rises, from 2200 K up.
proof fn lemma_x_low_falls(t1: int, t2: int)
    requires
        2_200_000 <= t1 <= t2,
    ensures
        x_low_numerator(t1) * (t2 * t2 * t2) >= x_low_numerator(t2) * (t1 * t1 * t1),
{
    let p = t1 * t2;
    let s = t1 + t2;
    let q = t1 * t1 + t1 * t2 + t2 * t2;
    let sq = t2 * t2;
    lemma_cube_difference(-266_123_900_000_000_000_000_000_000, -234_358_900_000_000_000_000, 877_695_600_000_000, 179_910_000, t1, t2);
    assert(p >= 2_200_000 * t2) by (nonlinear_arith)
        requires p == t1 * t2, t1 >= 2_200_000, t2 >= 0;
    assert(s <= 2 * t2);
    assert(q <= 3 * sq) by (nonlinear_arith)
        requires q == t1 * t1 + t1 * t2 + t2 * t2, sq == t2 * t2, 0 <= t1 <= t2;
    assert(p * p >= 2_200_000 * (p * t2)) by (nonlinear_arith)
        requires p >= 2_200_000 * t2, t2 >= 0, p >= 0;
    assert(p * s <= 2 * (p * t2)) by (nonlinear_arith)
        requires s <= 2 * t2, p >= 0;
    assert(p * t2 >= 2_200_000 * sq) by (nonlinear_arith)
        requires p >= 2_200_000 * t2, sq == t2 * t2, t2 >= 0;
    let big = 877_695_600_000_000 * (p * p) - 234_358_900_000_000_000_000 * (p * s) - 266_123_900_000_000_000_000_000_000 * q;
    assert(big >= 0) by (nonlinear_arith)
        requires
            p * p >= 2_200_000 * (p * t2),
            p * s <= 2 * (p * t2),
            p * t2 >= 2_200_000 * sq,
            q <= 3 * sq,
            sq >= 0,
            big == 877_695_600_000_000 * (p * p) - 234_358_900_000_000_000_000 * (p * s) - 266_123_900_000_000_000_000_000_000 * q;
    assert((t2 - t1) * big >= 0) by (nonlinear_arith)
        requires t2 - t1 >= 0, big >= 0;
}

/// From 4000 K the fit's x falls as the temperature rises.
proof fn lemma_x_high_falls(t1: int, t2: int)
    requires
        4_000_000 <= t1 <= t2,
    ensures
        x_high_numerator(t1) * (t2 * t2 * t2) >= x_high_numerator(t2) * (t1 * t1 * t1),
{
    let p = t1 * t2;
    let s = t1 + t2;
    let q = t1 * t1 + t1 * t2 + t2 * t2;
    let sq = t2 * t2;
    lemma_cube_difference(-3_025_846_900_000_000_000_000_000_000, 2_107_037_900_000_000_000_000, 222_634_700_000_000, 240_390_000, t1, t2);
    assert(p >= 4_000_000 * t2) by (nonlinear_arith)
        requires p == t1 * t2, t1 >= 4_000_000, t2 >= 0;
    assert(s >= t2);
    assert(q <= 3 * sq) by (nonlinear_arith)
        requires q == t1 * t1 + t1 * t2 + t2 * t2, sq == t2 * t2, 0 <= t1 <= t2;
    assert(p * p >= 16_000_000_000_000 * sq) by (nonlinear_arith)
        requires p >= 4_000_000 * t2, sq == t2 * t2, t2 >= 0;
    assert(p * s >= 4_000_000 * sq) by (nonlinear_arith)
        requires p >= 4_000_000 * t2, s >= t2, sq == t2 * t2, t2 >= 0;
    let big = 222_634_700_000_000 * (p * p) + 2_107_037_900_000_000_000_000 * (p * s) - 3_025_846_900_000_000_000_000_000_000 * q;
    assert(big >= 0) by (nonlinear_arith)
        requires
            p * p >= 16_000_000_000_000 * sq,
            p * s >= 4_000_000 * sq,
            q <= 3 * sq,
            sq >= 0,
            big == 222_634_700_000_000 * (p * p) + 2_107_037_900_000_000_000_000 * (p * s) - 3_025_846_900_000_000_000_000_000_000 * q;
    assert((t2 - t1) * big >= 0) by (nonlinear_arith)
        requires t2 - t1 >= 0, big >= 0;
}

/// Rounding down keeps an order between two fractions with positive
/// denominators.
proof fn lemma_floor_keeps_order(a: int, b: int, c: int, d: int)
    requires
        b > 0,
        d > 0,
        a * d >= c * b,
    ensures
        a / b >= c / d,
{
    let q = c / d;
    vstd::arithmetic::div_mod::lemma_fundamental_div_mod(c, d);
    vstd::arithmetic::div_mod::lemma_mod_bound(c, d);
    assert(q * d <= c) by (nonlinear_arith)
        requires c == d * q + c % d, c % d >= 0;
    assert(q * b * d <= a * d) by (nonlinear_arith)
        requires q * d <= c, a * d >= c * b, b > 0;
    assert(q * b <= a) by (nonlinear_arith)
        requires q * b * d <= a * d, d > 0;
    vstd::arithmetic::div_mod::lemma_fundamental_div_mod(a, b);
    vstd::arithmetic::div_mod::lemma_mod_bound(a, b);
    if a / b < q {
        assert(a < q * b) by (nonlinear_arith)
            requires a == b * (a / b) + a % b, a % b < b, a / b < q, b > 0;
    }
}

/// Across the slider's range and beyond, from 2200 K up, a warmer
/// temperature never gives a larger x: the locus runs from red towards blue.
pub proof fn lemma_locus_x_falls_with_temperature(t1: u32, t2: u32)
    requires
        2_200_000 <= t1 <= t2,
    ensures
        locus_x(t1) >= locus_x(t2),
{
    let a = t1 as int;
    let b = t2 as int;
    let a3 = a * a * a;
    let b3 = b * b * b;
    lemma_x_bounded(a);
    lemma_x_bounded(b);
    if b < 4_000_000 {
        lemma_x_low_falls(a, b);
        lemma_floor_keeps_order(x_numerator(a), a3, x_numerator(b), b3);
    } else if a >= 4_000_000 {
        lemma_x_high_falls(a, b);
        lemma_floor_keeps_order(x_numerator(a), a3, x_numerator(b), b3);
    } else {
        let m: int = 4_000_000;
        let m3 = m * m * m;
        lemma_x_low_falls(a, m);
        lemma_x_high_falls(m, b);
        assert(m3 == 64_000_000_000_000_000_000);
        assert(x_low_numerator(m) >= x_high_numerator(m));
        assert(x_low_numerator(a) * m3 >= x_high_numerator(m) * a3) by (nonlinear_arith)
            requires
                x_low_numerator(a) * m3 >= x_low_numerator(m) * a3,
                x_low_numerator(m) >= x_high_numerator(m),
                a3 > 0;
        assert(x_low_numerator(a) * b3 >= x_high_numerator(b) * a3) by (nonlinear_arith)
            requires
                x_low_numerator(a) * m3 >= x_high_numerator(m) * a3,
                x_high_numerator(m) * b3 >= x_high_numerator(b) * m3,
                a3 > 0,
                b3 > 0,
                m3 > 0;
        lemma_floor_keeps_order(x_numerator(a), a3, x_numerator(b), b3);
    }
}


/// The fit's y numerator on the branch from 2222 K to 4000 K.
spec fn y_mid(x: int) -> int {
    y_numerator(x, 3_000_000)
}

/// The fit's y numerator on the branch from 4000 K.
spec fn y_high(x: int) -> int {
    y_numerator(x, 5_000_000)
}

/// A cubic's difference between two points, factored through their
/// difference.
proof fn lemma_y_difference(x1: int, x2: int, d3: int, d2: int, d1: int, d0: int)
    ensures
        (d3 * (x1 * x1 * x1) + d2 * (x1 * x1) * 1_000_000_000 + d1 * x1 * 1_000_000_000_000_000_000
            + d0 * 1_000_000_000_000_000_000_000_000_000) - (d3 * (x2 * x2 * x2) + d2 * (x2 * x2)
            * 1_000_000_000 + d1 * x2 * 1_000_000_000_000_000_000 + d0
            * 1_000_000_000_000_000_000_000_000_000) == (x1 - x2) * (d3 * (x1 * x1 + x1 * x2 + x2
            * x2) + d2 * 1_000_000_000 * (x1 + x2) + d1 * 1_000_000_000_000_000_000),
{
    let d = x1 - x2;
    let q = x1 * x1 + x1 * x2 + x2 * x2;
    let s = x1 + x2;
    assert(x1 * x1 * x1 - x2 * x2 * x2 == d * q) by (nonlinear_arith)
        requires d == x1 - x2, q == x1 * x1 + x1 * x2 + x2 * x2;
    assert(x1 * x1 - x2 * x2 == d * s) by (nonlinear_arith)
        requires d == x1 - x2, s == x1 + x2;
    assert(d3 * (x1 * x1 * x1) - d3 * (x2 * x2 * x2) == d * (d3 * q)) by (nonlinear_arith)
        requires x1 * x1 * x1 - x2 * x2 * x2 == d * q;
    assert(d2 * (x1 * x1) * 1_000_000_000 - d2 * (x2 * x2) * 1_000_000_000 == d * (d2 * 1_000_000_000 * s))
        by (nonlinear_arith)
        requires x1 * x1 - x2 * x2 == d * s;
    assert(d1 * x1 * 1_000_000_000_000_000_000 - d1 * x2 * 1_000_000_000_000_000_000 == d * (d1
        * 1_000_000_000_000_000_000)) by (nonlinear_arith)
        requires d == x1 - x2;
    assert(d * (d3 * q) + d * (d2 * 1_000_000_000 * s) + d * (d1 * 1_000_000_000_000_000_000) == d
        * (d3 * q + d2 * 1_000_000_000 * s + d1 * 1_000_000_000_000_000_000)) by (nonlinear_arith);
}

/// On the middle branch y rises with x up to the x of 2500 K.
proof fn lemma_y_mid_rises(x1: int, x2: int)
    requires
        0 <= x2 <= x1 <= 476_458_886,
    ensures
        y_mid(x1) >= y_mid(x2),
{
    let (d3, d2, d1, d0) = y_coefficients(3_000_000);
    lemma_y_difference(x1, x2, d3, d2, d1, d0);
    let u: int = 476_458_886;
    let q = x1 * x1 + x1 * x2 + x2 * x2;
    let s = x1 + x2;
    assert(q <= 3 * (u * u)) by (nonlinear_arith)
        requires 0 <= x2 <= x1 <= u, q == x1 * x1 + x1 * x2 + x2 * x2;
    assert(s <= 2 * u);
    let b = d3 * q + d2 * 1_000_000_000 * s + d1 * 1_000_000_000_000_000_000;
    assert(b >= d3 * (3 * (u * u)) + d2 * 1_000_000_000 * (2 * u) + d1 * 1_000_000_000_000_000_000)
        by (nonlinear_arith)
        requires
            q <= 3 * (u * u),
            s <= 2 * u,
            d3 < 0,
            d2 < 0,
            b == d3 * q + d2 * 1_000_000_000 * s + d1 * 1_000_000_000_000_000_000;
    assert(b >= 0);
    assert((x1 - x2) * b >= 0) by (nonlinear_arith)
        requires x1 - x2 >= 0, b >= 0;
}

/// On the branch from 4000 K y rises with x, up to the x of 4000 K.
proof fn lemma_y_high_rises(x1: int, x2: int)
    requires
        x2 <= x1 <= 380_459_685,
    ensures
        y_high(x1) >= y_high(x2),
{
    let (d3, d2, d1, d0) = y_coefficients(5_000_000);
    lemma_y_difference(x1, x2, d3, d2, d1, d0);
    let s0: int = 760_919_370;
    let q = x1 * x1 + x1 * x2 + x2 * x2;
    let s = x1 + x2;
    assert(4 * q >= 3 * (s * s)) by (nonlinear_arith)
        requires q == x1 * x1 + x1 * x2 + x2 * x2, s == x1 + x2;
    assert(s * s >= 2 * s0 * s - s0 * s0) by (nonlinear_arith);
    assert(s <= s0);
    let b = d3 * q + d2 * 1_000_000_000 * s + d1 * 1_000_000_000_000_000_000;
    assert(4 * b >= 3 * d3 * (2 * s0 * s - s0 * s0) + 4 * d2 * 1_000_000_000 * s + 4 * d1
        * 1_000_000_000_000_000_000) by (nonlinear_arith)
        requires
            4 * q >= 3 * (s * s),
            s * s >= 2 * s0 * s - s0 * s0,
            d3 > 0,
            b == d3 * q + d2 * 1_000_000_000 * s + d1 * 1_000_000_000_000_000_000;
    assert(b >= 0) by (nonlinear_arith)
        requires
            4 * b >= 3 * d3 * (2 * s0 * s - s0 * s0) + 4 * d2 * 1_000_000_000 * s + 4 * d1
                * 1_000_000_000_000_000_000,
            s <= s0,
            s0 == 760_919_370,
            d3 == 308_175_800,
            d2 == -587_338_670,
            d1 == 375_112_997;
    assert((x1 - x2) * b >= 0) by (nonlinear_arith)
        requires x1 - x2 >= 0, b >= 0;
}

/// The x of the locus at `t` is `q` when the fit's numerator is `q` whole
/// denominators and the remainder `r`.
proof fn lemma_x_value(t: u32, q: int, r: int)
    requires
        t >= LOCUS_MIN_MILLIKELVIN,
        x_numerator(t as int) == q * (t * t * t) + r,
        0 <= r < t * t * t,
    ensures
        locus_x(t) == q,
{
    lemma_fundamental_div_mod_converse(x_numerator(t as int), t * t * t, q, r);
}

/// From 2500 K up, a warmer temperature never gives a larger y: past the bend
/// near 2250 K the locus descends all the way to blue.
pub proof fn lemma_locus_y_falls_with_temperature(t1: u32, t2: u32)
    requires
        2_500_000 <= t1 <= t2,
    ensures
        locus_y(t1) >= locus_y(t2),
{
    let dn: int = 100_000_000_000_000_000_000_000_000;
    let x1 = locus_x(t1);
    let x2 = locus_x(t2);
    lemma_locus_x_falls_with_temperature(t1, t2);
    lemma_locus_x_falls_with_temperature(2_500_000, t1);
    lemma_x_value(2_500_000, 476_458_886, 6_250_000_000_000_000_000);
    lemma_x_value(3_999_999, 380_528_327, 14_472_266_275_876_618_327);
    lemma_x_value(4_000_000, 380_459_685, 60_000_000_000_000_000_000);
    if t2 < 4_000_000 {
        lemma_locus_x_falls_with_temperature(t2, 3_999_999);
        lemma_y_mid_rises(x1, x2);
        lemma_floor_keeps_order(y_mid(x1), dn, y_mid(x2), dn);
    } else if t1 >= 4_000_000 {
        lemma_locus_x_falls_with_temperature(4_000_000, t1);
        lemma_y_high_rises(x1, x2);
        lemma_floor_keeps_order(y_high(x1), dn, y_high(x2), dn);
    } else {
        lemma_locus_x_falls_with_temperature(t1, 3_999_999);
        lemma_locus_x_falls_with_temperature(4_000_000, t2);
        lemma_y_mid_rises(x1, 380_528_327);
        lemma_y_high_rises(380_459_685, x2);
        assert(y_mid(380_528_327) >= y_high(380_459_685));
        lemma_floor_keeps_order(y_mid(x1), dn, y_high(x2), dn);
    }
}

}
