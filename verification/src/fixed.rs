//! Fixed-point scalar helpers: floor division and scaled trigonometry.
//!
//! Angles are measured in microradians.  Sine and cosine are returned
//! scaled by one million and are computed as fixed-point Taylor
//! polynomials of fifth and fourth order, which keeps them within a few
//! millionths of the exact values over the angles the game uses.

use vstd::prelude::*;

verus! {

use vstd::arithmetic::div_mod::lemma_fundamental_div_mod;
use vstd::arithmetic::div_mod::lemma_div_pos_is_pos;
use vstd::arithmetic::div_mod::lemma_div_nonincreasing;

/// Quotients computed by `div_floor_i128` stay between the bounds that the
/// dividend's own bounds give: if `|n| <= b * d` then `|n / d| <= b`.
pub proof fn lemma_div_floor_bounds(n: int, d: int, b: int)
    requires
        d > 0,
        b >= 0,
        -(b * d) <= n,
        n <= b * d,
    ensures
        -b <= n / d <= b,
{
    lemma_fundamental_div_mod(n, d);
    let q = n / d;
    let r = n % d;
    assert(q <= b && -b <= q) by (nonlinear_arith)
        requires
            d > 0,
            b >= 0,
            -(b * d) <= n,
            n <= b * d,
            n == d * q + r,
            0 <= r < d,
    {}
}

/// Floor division of 128-bit integers by a positive divisor; the result
/// agrees with mathematical division rounded toward negative infinity.
pub fn div_floor_i128(a: i128, b: i128) -> (q: i128)
    requires
        b > 0,
    ensures
        q == a as int / b as int,
{
    proof {
        if a >= 0 {
            lemma_div_pos_is_pos(a as int, b as int);
            lemma_div_nonincreasing(a as int, b as int);
        } else {
            lemma_fundamental_div_mod(a as int, b as int);
            let qq = a as int / b as int;
            let rr = a as int % b as int;
            assert(a <= qq <= 0) by (nonlinear_arith)
                requires
                    a < 0,
                    b > 0,
                    a == b * qq + rr,
                    0 <= rr < b,
            {}
        }
    }
    a.checked_div_euclid(b).unwrap()
}

/// Floor division of 64-bit integers by a positive divisor.
pub fn div_floor_i64(a: i64, b: i64) -> (q: i64)
    requires
        b > 0,
    ensures
        q == a as int / b as int,
{
    proof {
        if a >= 0 {
            lemma_div_pos_is_pos(a as int, b as int);
            lemma_div_nonincreasing(a as int, b as int);
        } else {
            lemma_fundamental_div_mod(a as int, b as int);
            let qq = a as int / b as int;
            let rr = a as int % b as int;
            assert(a <= qq <= 0) by (nonlinear_arith)
                requires
                    a < 0,
                    b > 0,
                    a == b * qq + rr,
                    0 <= rr < b,
            {}
        }
    }
    a.checked_div_euclid(b).unwrap()
}

/// Sine of an angle in microradians, scaled by one million:
/// the fifth-order series `x - x^3/6 + x^5/120` in fixed point.
pub open spec fn spec_sin_fp(a: int) -> int {
    a - (a * a * a) / 6_000_000_000_000
        + (a * a * a * a * a) / 120_000_000_000_000_000_000_000_000
}

/// Cosine of an angle in microradians, scaled by one million:
/// the fourth-order series `1 - x^2/2 + x^4/24` in fixed point.
pub open spec fn spec_cos_fp(a: int) -> int {
    1_000_000 - (a * a) / 2_000_000 + (a * a * a * a) / 24_000_000_000_000_000_000
}

/// Fixed-point sine; see `spec_sin_fp`.
pub fn sin_fp(a: i64) -> (r: i64)
    requires
        -2_000_000 <= a <= 2_000_000,
    ensures
        r == spec_sin_fp(a as int),
        -4_000_000 <= r <= 4_000_000,
{
    let x = a as i128;
    proof {
        assert(0 <= x * x <= 4_000_000_000_000) by (nonlinear_arith)
            requires
                -2_000_000 <= x <= 2_000_000,
        {}
    }
    let x2 = x * x;
    proof {
        assert(-8_000_000_000_000_000_000 <= x2 * x <= 8_000_000_000_000_000_000)
            by (nonlinear_arith)
            requires
                -2_000_000 <= x <= 2_000_000,
                0 <= x2 <= 4_000_000_000_000,
        {}
    }
    let x3 = x2 * x;
    proof {
        assert(-32_000_000_000_000_000_000_000_000_000_000 <= x3 * x2
            <= 32_000_000_000_000_000_000_000_000_000_000) by (nonlinear_arith)
            requires
                -8_000_000_000_000_000_000 <= x3 <= 8_000_000_000_000_000_000,
                0 <= x2 <= 4_000_000_000_000,
        {}
    }
    let x5 = x3 * x2;
    proof {
        lemma_div_floor_bounds(x3 as int, 6_000_000_000_000, 1_400_000);
        lemma_div_floor_bounds(
            x5 as int,
            120_000_000_000_000_000_000_000_000,
            300_000,
        );
    }
    let t3 = div_floor_i128(x3, 6_000_000_000_000);
    let t5 = div_floor_i128(x5, 120_000_000_000_000_000_000_000_000);
    proof {
        let ai = a as int;
        assert(x5 == ai * ai * ai * ai * ai) by (nonlinear_arith)
            requires
                x5 == x3 * x2,
                x3 == ai * ai * ai,
                x2 == ai * ai,
        {}
    }
    (x - t3 + t5) as i64
}

/// Fixed-point cosine; see `spec_cos_fp`.
pub fn cos_fp(a: i64) -> (r: i64)
    requires
        -2_000_000 <= a <= 2_000_000,
    ensures
        r == spec_cos_fp(a as int),
        -4_000_000 <= r <= 4_000_000,
{
    let x = a as i128;
    proof {
        assert(0 <= x * x <= 4_000_000_000_000) by (nonlinear_arith)
            requires
                -2_000_000 <= x <= 2_000_000,
        {}
    }
    let x2 = x * x;
    proof {
        assert(0 <= x2 * x2 <= 16_000_000_000_000_000_000_000_000) by (nonlinear_arith)
            requires
                0 <= x2 <= 4_000_000_000_000,
        {}
    }
    let x4 = x2 * x2;
    proof {
        lemma_div_floor_bounds(x2 as int, 2_000_000, 2_000_000);
        lemma_div_floor_bounds(x4 as int, 24_000_000_000_000_000_000, 700_000);
    }
    let t2 = div_floor_i128(x2, 2_000_000);
    let t4 = div_floor_i128(x4, 24_000_000_000_000_000_000);
    proof {
        let ai = a as int;
        assert(x4 == ai * ai * ai * ai) by (nonlinear_arith)
            requires
                x4 == x2 * x2,
                x2 == ai * ai,
        {}
    }
    (1_000_000 - t2 + t4) as i64
}

} // verus!
