//! Fixed-point scalars.
//!
//! A scalar holds `value * FP_ONE`; one world unit is `FP_ONE`. Division
//! by a positive divisor rounds toward negative infinity, which is the
//! `/` of specifications, so contracts state results with the
//! mathematical `/`; a negative divisor negates the floored magnitude
//! quotient.

use vstd::prelude::*;

verus! {

/// Scale of the fixed-point representation.
pub const FP_ONE: i64 = 65536;

/// Floor division of `a` by a positive `b`; agrees with the `/` of
/// specifications, which is Euclidean.
pub fn div_floor_i64(a: i64, b: i64) -> (q: i64)
    requires
        b > 0,
    ensures
        q == a as int / b as int,
{
    proof {
        lemma_div_stays_in_range(a as int, b as int);
    }
    a.checked_div_euclid(b).unwrap()
}

/// Floor division of `a` by a positive `b` for wide intermediates.
pub fn div_floor_i128(a: i128, b: i128) -> (q: i128)
    requires
        b > 0,
    ensures
        q == a as int / b as int,
{
    proof {
        lemma_div_stays_in_range(a as int, b as int);
    }
    a.checked_div_euclid(b).unwrap()
}

/// A quotient by a positive divisor lies between the dividend and zero.
pub proof fn lemma_div_stays_in_range(a: int, b: int)
    requires
        b > 0,
    ensures
        a >= 0 ==> 0 <= a / b <= a,
        a < 0 ==> a <= a / b <= 0,
{
    vstd::arithmetic::div_mod::lemma_fundamental_div_mod(a, b);
    let q = a / b;
    let r = a % b;
    vstd::arithmetic::div_mod::lemma_mod_bound(a, b);
    assert(a >= 0 ==> 0 <= q <= a) by (nonlinear_arith)
        requires
            b > 0,
            a == b * q + r,
            0 <= r < b,
    ;
    assert(a < 0 ==> a <= q <= 0) by (nonlinear_arith)
        requires
            b > 0,
            a == b * q + r,
            0 <= r < b,
    ;
}

/// A value bounded in magnitude by `m` divides (by positive `d`, flooring)
/// to a value bounded by `m / d` above and `-(m / d) - 1` below.
pub proof fn lemma_div_bound_abs(x: int, m: int, d: int)
    requires
        -m <= x <= m,
        0 <= m,
        0 < d,
    ensures
        -(m / d) - 1 <= x / d <= m / d,
{
    vstd::arithmetic::div_mod::lemma_div_is_ordered(x, m, d);
    vstd::arithmetic::div_mod::lemma_div_is_ordered(-m, x, d);
    vstd::arithmetic::div_mod::lemma_fundamental_div_mod(m, d);
    vstd::arithmetic::div_mod::lemma_mod_bound(m, d);
    let q = m / d;
    let r = m % d;
    if r == 0 {
        assert(-m == (-q) * d + 0) by (nonlinear_arith)
            requires
                m == d * q + r,
                r == 0,
        ;
        vstd::arithmetic::div_mod::lemma_fundamental_div_mod_converse(-m, d, -q, 0);
    } else {
        assert(-m == (-q - 1) * d + (d - r)) by (nonlinear_arith)
            requires
                m == d * q + r,
        ;
        vstd::arithmetic::div_mod::lemma_fundamental_div_mod_converse(-m, d, -q - 1, d - r);
    }
}

/// Exact product of two `i64` values, carried in an `i128`.
pub fn mul_wide(a: i64, b: i64) -> (r: i128)
    ensures
        r == a as int * b as int,
{
    proof {
        assert(i128::MIN <= a as int * b as int <= i128::MAX) by (nonlinear_arith)
            requires
                i64::MIN <= a <= i64::MAX,
                i64::MIN <= b <= i64::MAX,
        ;
    }
    (a as i128) * (b as i128)
}

/// Product of two fixed-point scalars, rescaled back (floor).
pub open spec fn fpmul(a: int, b: int) -> int {
    (a * b) / (FP_ONE as int)
}

/// Quotient of two fixed-point scalars: the floored magnitude quotient,
/// negated for a negative divisor. Only a zero divisor is outside the
/// domain.
pub open spec fn fpdiv(a: int, b: int) -> int
    recommends
        b != 0,
{
    if b > 0 {
        (a * FP_ONE as int) / b
    } else {
        -((a * FP_ONE as int) / -b)
    }
}

/// Executable fixed-point multiply; exact per `fpmul`.
pub fn fp_mul(a: i64, b: i64) -> (r: i64)
    requires
        -0x80_0000_0000 <= a <= 0x80_0000_0000,
        -0x80_0000_0000 <= b <= 0x80_0000_0000,
    ensures
        r == fpmul(a as int, b as int),
{
    let p = mul_wide(a, b);
    proof {
        assert(-0x4000_0000_0000_0000_0000 <= a as int * b as int
            <= 0x4000_0000_0000_0000_0000) by (nonlinear_arith)
            requires
                -0x80_0000_0000 <= a as int <= 0x80_0000_0000,
                -0x80_0000_0000 <= b as int <= 0x80_0000_0000,
        ;
        lemma_div_stays_in_range(p as int, FP_ONE as int);
        vstd::arithmetic::div_mod::lemma_div_is_ordered(
            p as int,
            0x4000_0000_0000_0000_0000,
            FP_ONE as int,
        );
        vstd::arithmetic::div_mod::lemma_div_is_ordered(
            -0x4000_0000_0000_0000_0000,
            p as int,
            FP_ONE as int,
        );
    }
    div_floor_i128(p, FP_ONE as i128) as i64
}

/// Executable fixed-point divide; exact per `fpdiv`. Any nonzero divisor
/// is accepted.
pub fn fp_div(a: i64, b: i64) -> (r: i64)
    requires
        -0x4000_0000_0000 <= a <= 0x4000_0000_0000,
        b != 0,
        b != i64::MIN,
    ensures
        r == fpdiv(a as int, b as int),
{
    let p = mul_wide(a, FP_ONE);
    if b > 0 {
        proof {
            lemma_div_stays_in_range(p as int, b as int);
        }
        div_floor_i128(p, b as i128) as i64
    } else {
        proof {
            lemma_div_stays_in_range(p as int, -b as int);
        }
        -(div_floor_i128(p, -b as i128) as i64)
    }
}

/// A proper fixed-point fraction of a positive span stays strictly below
/// the span: `floor(u * span / FP_ONE) < span` for `u < FP_ONE`.
pub proof fn lemma_fpmul_fraction_strict(u: int, span: int)
    requires
        0 <= u < FP_ONE,
        1 <= span,
    ensures
        0 <= fpmul(u, span) < span,
{
    assert(0 <= u * span) by (nonlinear_arith)
        requires
            0 <= u,
            0 <= span,
    ;
    lemma_div_stays_in_range(u * span, FP_ONE as int);
    vstd::arithmetic::div_mod::lemma_fundamental_div_mod(u * span, FP_ONE as int);
    vstd::arithmetic::div_mod::lemma_mod_bound(u * span, FP_ONE as int);
    let q = (u * span) / (FP_ONE as int);
    let r = (u * span) % (FP_ONE as int);
    assert(q < span) by (nonlinear_arith)
        requires
            u * span == 65536 * q + r,
            0 <= r,
            0 <= u <= 65535,
            1 <= span,
            q >= 0,
    ;
}

/// The integer square root, rounded down.
pub open spec fn sqrt_floor(n: nat) -> nat
    decreases n,
{
    if n == 0 {
        0
    } else {
        let s = sqrt_floor((n - 1) as nat);
        if (s + 1) * (s + 1) <= n {
            s + 1
        } else {
            s
        }
    }
}

/// `sqrt_floor(n)` is the unique `r` with `r * r <= n < (r + 1) * (r + 1)`.
pub proof fn lemma_sqrt_floor(n: nat)
    ensures
        sqrt_floor(n) * sqrt_floor(n) <= n,
        n < (sqrt_floor(n) + 1) * (sqrt_floor(n) + 1),
    decreases n,
{
    if n == 0 {
        assert(sqrt_floor(0) == 0);
        assert(n < (sqrt_floor(n) + 1) * (sqrt_floor(n) + 1)) by (nonlinear_arith)
            requires
                n == 0,
                sqrt_floor(n) == 0,
        ;
    } else {
        lemma_sqrt_floor((n - 1) as nat);
        let s = sqrt_floor((n - 1) as nat);
        assert(s * s <= n - 1);
        assert(n - 1 < (s + 1) * (s + 1));
        if (s + 1) * (s + 1) <= n {
            assert(sqrt_floor(n) == s + 1);
            assert(n < (s + 2) * (s + 2)) by (nonlinear_arith)
                requires
                    n - 1 < (s + 1) * (s + 1),
                    s >= 0,
            ;
            assert(sqrt_floor(n) * sqrt_floor(n) <= n);
            assert(n < (sqrt_floor(n) + 1) * (sqrt_floor(n) + 1));
        } else {
            assert(sqrt_floor(n) == s);
            assert(sqrt_floor(n) * sqrt_floor(n) <= n);
            assert(n < (sqrt_floor(n) + 1) * (sqrt_floor(n) + 1));
        }
    }
}

/// Squaring is strictly monotone on naturals, so the root is unique.
pub proof fn lemma_sqrt_floor_unique(n: nat, r: nat)
    requires
        r * r <= n,
        n < (r + 1) * (r + 1),
    ensures
        r == sqrt_floor(n),
{
    lemma_sqrt_floor(n);
    let s = sqrt_floor(n);
    assert(r == s) by (nonlinear_arith)
        requires
            r * r <= n < (r + 1) * (r + 1),
            s * s <= n < (s + 1) * (s + 1),
            r >= 0,
            s >= 0,
    ;
}

/// Binary-search integer square root.
pub fn isqrt_u128(n: u128) -> (r: u128)
    ensures
        r == sqrt_floor(n as nat),
{
    let mut lo: u128 = 0;
    let mut hi: u128 = 1u128 << 64;
    proof {
        assert((1u128 << 64) as int == 0x1_0000_0000_0000_0000) by (bit_vector);
        assert(n < hi * hi) by (nonlinear_arith)
            requires
                n <= u128::MAX,
                hi == 0x1_0000_0000_0000_0000,
        ;
    }
    while lo + 1 < hi
        invariant
            lo < hi <= 0x1_0000_0000_0000_0000,
            lo * lo <= n,
            n < hi * hi,
        decreases hi - lo,
    {
        let mid = lo + (hi - lo) / 2;
        proof {
            assert(mid * mid <= u128::MAX) by (nonlinear_arith)
                requires
                    mid < 0x1_0000_0000_0000_0000u128,
            ;
        }
        let sq = mid * mid;
        if sq <= n {
            lo = mid;
        } else {
            hi = mid;
        }
    }
    proof {
        lemma_sqrt_floor_unique(n as nat, lo as nat);
    }
    lo
}

/// Integer square root of a nonnegative `i64`.
pub fn isqrt_i64(n: i64) -> (r: i64)
    requires
        n >= 0,
    ensures
        r == sqrt_floor(n as nat),
        r >= 0,
{
    let r = isqrt_u128(n as u128);
    proof {
        lemma_sqrt_floor(n as nat);
        assert(sqrt_floor(n as nat) < 0x1_0000_0000) by (nonlinear_arith)
            requires
                sqrt_floor(n as nat) * sqrt_floor(n as nat) <= n,
                n < 0x8000_0000_0000_0000,
        ;
    }
    r as i64
}

} // verus!
