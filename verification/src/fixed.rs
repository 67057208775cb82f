//! Scalar helpers for the 16.16 fixed-point model: flooring division and an
//! integer square root. All later geometric contracts are stated with the
//! mathematical (Euclidean) `/` of specifications, so the executable code
//! must divide with flooring rather than truncating semantics.

use vstd::prelude::*;
use vstd::arithmetic::div_mod::{
    lemma_fundamental_div_mod, lemma_fundamental_div_mod_converse_div,
};

verus! {

/// Flooring division of `a` by a positive `b`: returns `a / b` in the
/// Euclidean sense used by specification arithmetic.
pub fn floor_div_i128(a: i128, b: i128) -> (q: i128)
    requires
        b > 0,
        a > i128::MIN,
    ensures
        q == a as int / b as int,
{
    if a >= 0 {
        let m: u128 = a as u128;
        let d: u128 = b as u128;
        let mq = m / d;
        proof {
            lemma_fundamental_div_mod(m as int, d as int);
        }
        mq as i128
    } else {
        let m: u128 = (-a) as u128;
        let d: u128 = b as u128;
        let mq = m / d;
        let mr = m % d;
        proof {
            lemma_fundamental_div_mod(m as int, d as int);
            assert(m as int == -(a as int));
            assert(m as int == d as int * mq as int + mr as int);
            if mr == 0 {
                assert(a as int == -(mq as int) * b as int + 0) by (nonlinear_arith)
                    requires
                        a as int == -(b as int * mq as int),
                ;
                lemma_fundamental_div_mod_converse_div(
                    a as int, b as int, -(mq as int), 0,
                );
            } else {
                assert(a as int == (-(mq as int) - 1) * b as int + (b - mr)) by (nonlinear_arith)
                    requires
                        a as int == -(b as int * mq as int + mr as int),
                ;
                lemma_fundamental_div_mod_converse_div(
                    a as int, b as int, -(mq as int) - 1, b - mr,
                );
            }
        }
        if mr == 0 {
            -(mq as i128)
        } else {
            -(mq as i128) - 1
        }
    }
}

/// Dividing a value bounded by `k * FP_ONE` in magnitude by `FP_ONE`
/// (rounding down) gives a quotient between `-(k + 1)` and `k`.
pub proof fn lemma_div_fp_bound(a: int, k: int)
    requires
        0 <= k,
        -(k * 65536) <= a <= k * 65536,
    ensures
        -(k + 1) <= a / 65536 <= k,
{
    lemma_fundamental_div_mod(a, 65536);
    let q = a / 65536;
    let r = a % 65536;
    assert(-(k + 1) <= q <= k) by (nonlinear_arith)
        requires
            a == 65536 * q + r,
            0 <= r < 65536,
            -(k * 65536) <= a <= k * 65536,
            0 <= k,
    ;
}

/// Dividing a value bounded by `k * b` in magnitude by a positive `b`
/// (rounding down) gives a quotient between `-(k + 1)` and `k`.
pub proof fn lemma_div_bound(a: int, b: int, k: int)
    requires
        0 < b,
        0 <= k,
        -(k * b) <= a <= k * b,
    ensures
        -(k + 1) <= a / b <= k,
{
    lemma_fundamental_div_mod(a, b);
    let q = a / b;
    let r = a % b;
    assert(-(k + 1) <= q <= k) by (nonlinear_arith)
        requires
            a == b * q + r,
            0 <= r < b,
            -(k * b) <= a <= k * b,
            0 <= k,
            0 < b,
    ;
}

/// The magnitude of a product is bounded by the product of the bounds.
pub proof fn lemma_mul_bound(a: int, b: int, m: int, n: int)
    requires
        -m <= a <= m,
        -n <= b <= n,
        0 <= m,
        0 <= n,
    ensures
        -(m * n) <= a * b <= m * n,
{
    assert(-(m * n) <= a * b <= m * n) by (nonlinear_arith)
        requires -m <= a <= m, -n <= b <= n, 0 <= m, 0 <= n;
}

/// A square is never negative.
pub proof fn lemma_square_nonneg_pub(a: int)
    ensures
        a * a >= 0,
{
    assert(a * a >= 0) by (nonlinear_arith);
}

/// Fixed-point multiplication: `a * b / 65536`, rounding down. Closed on
/// the unit range: factors in `[0, 65536]` give a product in `[0, 65536]`.
pub fn mul_fp(a: i64, b: i64) -> (r: i64)
    requires
        -0x2000_0000 <= a <= 0x2000_0000,
        -0x2000_0000 <= b <= 0x2000_0000,
    ensures
        r == (a * b) / 65536,
        0 <= a && 0 <= b ==> 0 <= r,
        0 <= a <= 65536 && 0 <= b <= 65536 ==> r <= 65536,
        -0x8000_0000_0000 <= r <= 0x4000_0000_0000,
{
    proof {
        assert(-0x4000_0000_0000_0000 <= a as int * b as int <= 0x4000_0000_0000_0000
            && (0 <= a && 0 <= b ==> a as int * b as int >= 0)
            && (0 <= a <= 65536 && 0 <= b <= 65536 ==> a as int * b as int <= 0x1_0000_0000)) by (nonlinear_arith)
            requires
                -0x2000_0000 <= a as int <= 0x2000_0000,
                -0x2000_0000 <= b as int <= 0x2000_0000,
        ;
        assert(0x4000_0000_0000int * 65536 == 0x4000_0000_0000_0000int);
        lemma_div_fp_bound(a as int * b as int, 0x4000_0000_0000int);
        lemma_fundamental_div_mod(a as int * b as int, 65536);
    }
    let q = floor_div_i128(a as i128 * b as i128, 65536);
    q as i64
}

/// The flooring square root of `x`: the unique nonnegative `q` with
/// `q * q <= x < (q + 1) * (q + 1)`.
pub open spec fn sqrt_floor(x: int) -> int {
    choose|q: int| q >= 0 && #[trigger] (q * q) <= x && (q + 1) * (q + 1) > x
}

/// A nonnegative `r` whose square brackets `x` is the flooring square root.
pub proof fn lemma_sqrt_floor_is(x: int, r: int)
    requires
        r >= 0,
        r * r <= x,
        (r + 1) * (r + 1) > x,
    ensures
        sqrt_floor(x) == r,
{
    assert(exists|q: int| q >= 0 && #[trigger] (q * q) <= x && (q + 1) * (q + 1) > x) by {
        assert(r >= 0 && r * r <= x && (r + 1) * (r + 1) > x);
    }
    let q = sqrt_floor(x);
    assert(q >= 0 && q * q <= x && (q + 1) * (q + 1) > x);
    assert(q == r) by (nonlinear_arith)
        requires
            q >= 0,
            r >= 0,
            q * q <= x,
            (q + 1) * (q + 1) > x,
            r * r <= x,
            (r + 1) * (r + 1) > x,
    ;
}

/// Integer square root: the largest `r` with `r * r <= x`.
pub fn isqrt_u128(x: u128) -> (r: u128)
    ensures
        r * r <= x,
        (r + 1) * (r + 1) > x,
{
    let mut lo: u128 = 0;
    let mut hi: u128 = if x < 0xFFFF_FFFF_FFFF_FFFF {
        x + 1
    } else {
        0x1_0000_0000_0000_0000
    };
    proof {
        assert(x < 0xFFFF_FFFF_FFFF_FFFF ==> (x + 1) * (x + 1) > x) by (nonlinear_arith);
        assert(0x1_0000_0000_0000_0000u128 * 0x1_0000_0000_0000_0000u128 > x) by (nonlinear_arith)
            requires x <= u128::MAX;
    }
    // binary search for the greatest root: lo always satisfies lo * lo <= x,
    // hi always satisfies hi * hi > x
    while hi - lo > 1
        invariant
            lo < hi,
            hi <= 0x1_0000_0000_0000_0000,
            lo * lo <= x,
            hi * hi > x,
        decreases hi - lo,
    {
        let mid = lo + (hi - lo) / 2;
        assert(lo < mid < hi);
        if mid <= 0xFFFF_FFFF_FFFF_FFFF {
            proof {
                assert(mid * mid <= u128::MAX) by (nonlinear_arith)
                    requires mid <= 0xFFFF_FFFF_FFFF_FFFFu128;
            }
            let sq = mid * mid;
            if sq <= x {
                lo = mid;
            } else {
                hi = mid;
            }
        } else {
            proof {
                assert(mid * mid > x) by (nonlinear_arith)
                    requires mid > 0xFFFF_FFFF_FFFF_FFFFu128 && x <= u128::MAX;
            }
            hi = mid;
        }
    }
    lo
}

} // verus!
