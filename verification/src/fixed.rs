//! Signed fixed-point arithmetic with 32 fractional bits.
//!
//! A raw `i64` value `r` stands for the real number `r / 2^32`. Products and
//! quotients are rounded toward negative infinity, so every operation is an
//! exact function on the integers and can be stated as one.
use vstd::arithmetic::div_mod::*;
use vstd::arithmetic::mul::*;
use vstd::prelude::*;

verus! {

/// The raw value of 1.0.
pub const ONE: i64 = 0x1_0000_0000;

/// Whether `v` can be held in an `i64`.
pub open spec fn fits(v: int) -> bool {
    i64::MIN <= v <= i64::MAX
}

/// The fixed-point product of two raw values.
pub open spec fn mul_spec(a: int, b: int) -> int {
    (a * b) / (ONE as int)
}

/// The fixed-point quotient of two raw values, for a positive divisor.
pub open spec fn div_spec(a: int, b: int) -> int {
    (a * (ONE as int)) / b
}

/// `r` is the largest integer whose square does not exceed `n`.
pub open spec fn is_floor_sqrt(n: int, r: int) -> bool {
    0 <= r && r * r <= n && n < (r + 1) * (r + 1)
}

/// The integer square root of `n`, rounded down.
pub open spec fn floor_sqrt(n: int) -> int {
    choose|r: int| is_floor_sqrt(n, r)
}

/// The fixed-point square root of a raw value.
pub open spec fn sqrt_spec(a: int) -> int {
    floor_sqrt(a * (ONE as int))
}

/// There is only one floor square root.
pub proof fn lemma_floor_sqrt_unique(n: int, r: int)
    requires
        is_floor_sqrt(n, r),
    ensures
        floor_sqrt(n) == r,
{
    let s = floor_sqrt(n);
    assert(is_floor_sqrt(n, s));
    assert(s == r) by (nonlinear_arith)
        requires
            0 <= r,
            0 <= s,
            r * r <= n,
            n < (r + 1) * (r + 1),
            s * s <= n,
            n < (s + 1) * (s + 1),
    {
        if s < r {
            assert((s + 1) * (s + 1) <= r * r);
        }
        if r < s {
            assert((r + 1) * (r + 1) <= s * s);
        }
    }
}

/// Every number that is not negative has a floor square root.
pub proof fn lemma_floor_sqrt_exists(n: int)
    requires
        0 <= n,
    ensures
        is_floor_sqrt(n, floor_sqrt(n)),
    decreases n,
{
    if n == 0 {
        assert(is_floor_sqrt(0, 0));
    } else {
        lemma_floor_sqrt_exists(n - 1);
        let r = floor_sqrt(n - 1);
        if (r + 1) * (r + 1) <= n {
            assert(n < (r + 2) * (r + 2)) by (nonlinear_arith)
                requires
                    0 <= r,
                    n - 1 < (r + 1) * (r + 1),
            ;
            assert(is_floor_sqrt(n, r + 1));
        } else {
            assert(is_floor_sqrt(n, r));
        }
    }
}

/// The floor square root grows with its argument: between `lo * lo` and
/// `hi * hi` it lies between `lo` and `hi`.
pub proof fn lemma_floor_sqrt_range(n: int, lo: int, hi: int)
    requires
        0 <= lo,
        0 <= hi,
        lo * lo <= n <= hi * hi,
    ensures
        lo <= floor_sqrt(n) <= hi,
{
    assert(0 <= lo * lo) by (nonlinear_arith);
    lemma_floor_sqrt_exists(n);
    let r = floor_sqrt(n);
    assert(lo <= r <= hi) by (nonlinear_arith)
        requires
            0 <= lo,
            0 <= hi,
            0 <= r,
            lo * lo <= n <= hi * hi,
            r * r <= n,
            n < (r + 1) * (r + 1),
    {
        if r < lo {
            assert((r + 1) * (r + 1) <= lo * lo);
        }
        if hi < r {
            assert(hi * hi < r * r);
        }
    }
}

/// A product lies between the products of the bounds of its factors.
pub proof fn lemma_mul_bound(a: int, b: int, ma: int, mb: int)
    requires
        -ma <= a <= ma,
        -mb <= b <= mb,
    ensures
        mul_spec(-ma, mb) <= mul_spec(a, b) <= mul_spec(ma, mb),
{
    assert(-(ma * mb) <= a * b <= ma * mb) by (nonlinear_arith)
        requires
            -ma <= a <= ma,
            -mb <= b <= mb,
    ;
    assert((-ma) * mb == -(ma * mb)) by (nonlinear_arith);
    lemma_div_is_ordered(-(ma * mb), a * b, ONE as int);
    lemma_div_is_ordered(a * b, ma * mb, ONE as int);
}

/// A product of two bounded factors stays within `m` when the product of
/// the bounds stays within `m`.
pub proof fn lemma_mul_within(a: int, b: int, ma: int, mb: int, m: int)
    requires
        -ma <= a <= ma,
        -mb <= b <= mb,
        ma * mb <= m * ONE,
    ensures
        -m <= mul_spec(a, b) <= m,
{
    lemma_mul_bound(a, b, ma, mb);
    assert((-ma) * mb == -(ma * mb)) by (nonlinear_arith);
    lemma_div_is_ordered(ma * mb, m * ONE, ONE as int);
    lemma_div_is_ordered(-(m * ONE), -(ma * mb), ONE as int);
    lemma_div_multiples_vanish(m, ONE as int);
    lemma_div_multiples_vanish(-m, ONE as int);
    assert(m * ONE == (ONE as int) * m) by (nonlinear_arith);
    assert(-(m * ONE) == (ONE as int) * (-m)) by (nonlinear_arith);
}

/// The product of two values that are not negative is not negative.
pub proof fn lemma_mul_nonnegative_fixed(a: int, b: int)
    requires
        0 <= a,
        0 <= b,
    ensures
        0 <= mul_spec(a, b),
{
    lemma_mul_nonnegative(a, b);
    lemma_div_pos_is_pos(a * b, ONE as int);
}

/// Multiplying by a factor of magnitude at most 1.0 does not grow a value.
pub proof fn lemma_mul_by_fraction(x: int, c: int, mx: int)
    requires
        -mx <= x <= mx,
        -(ONE as int) <= c <= ONE as int,
    ensures
        -mx <= mul_spec(x, c) <= mx,
{
    lemma_mul_bound(x, c, mx, ONE as int);
    lemma_div_multiples_vanish(mx, ONE as int);
    lemma_div_multiples_vanish(-mx, ONE as int);
    assert((-mx) * (ONE as int) == (ONE as int) * (-mx)) by (nonlinear_arith);
    assert(mx * (ONE as int) == (ONE as int) * mx) by (nonlinear_arith);
}

/// 1.0 is the neutral element of the product and of the quotient.
pub proof fn lemma_one_is_neutral(x: int)
    ensures
        mul_spec(x, ONE as int) == x,
        div_spec(x, ONE as int) == x,
{
    lemma_div_multiples_vanish(x, ONE as int);
    assert(x * (ONE as int) == (ONE as int) * x) by (nonlinear_arith);
}

/// A quotient of a value that is not negative grows with the dividend and
/// shrinks as the divisor grows.
pub proof fn lemma_div_bound(a: int, b: int, ma: int, mb: int)
    requires
        0 <= a <= ma,
        0 < mb <= b,
    ensures
        0 <= div_spec(a, b) <= div_spec(ma, mb),
{
    let n = a * (ONE as int);
    let m = ma * (ONE as int);
    assert(0 <= n <= m) by (nonlinear_arith)
        requires
            0 <= a <= ma,
            n == a * (ONE as int),
            m == ma * (ONE as int),
    ;
    lemma_div_pos_is_pos(n, b);
    lemma_div_is_ordered(n, m, b);
    lemma_div_is_ordered_by_denominator(m, mb, b);
}

/// A quotient is at least the quotient of a smaller dividend by a larger
/// divisor.
pub proof fn lemma_div_at_least(a: int, b: int, la: int, hb: int)
    requires
        0 <= la <= a,
        0 < b <= hb,
    ensures
        div_spec(la, hb) <= div_spec(a, b),
{
    let n = a * (ONE as int);
    let l = la * (ONE as int);
    assert(0 <= l <= n) by (nonlinear_arith)
        requires
            0 <= la <= a,
            n == a * (ONE as int),
            l == la * (ONE as int),
    ;
    lemma_div_is_ordered(l, n, b);
    lemma_div_is_ordered_by_denominator(l, b, hb);
}

/// A product of factors that are not negative is at least the product of
/// their lower bounds.
pub proof fn lemma_mul_at_least(a: int, b: int, la: int, lb: int)
    requires
        0 <= la <= a,
        0 <= lb <= b,
    ensures
        mul_spec(la, lb) <= mul_spec(a, b),
{
    assert(la * lb <= a * b) by (nonlinear_arith)
        requires
            0 <= la <= a,
            0 <= lb <= b,
    ;
    lemma_div_is_ordered(la * lb, a * b, ONE as int);
}

/// The quotient `n / d`, rounded toward negative infinity.
pub fn floor_div(n: i128, d: i128) -> (q: i128)
    requires
        d > 0,
        n > i128::MIN,
    ensures
        q == n as int / d as int,
{
    if n >= 0 {
        n / d
    } else {
        let p: i128 = -n;
        let t: i128 = p / d;
        let m: i128 = p % d;
        proof {
            lemma_fundamental_div_mod(p as int, d as int);
            lemma_div_pos_is_pos(p as int, d as int);
            lemma_mod_bound(p as int, d as int);
        }
        if m == 0 {
            proof {
                assert(n as int == (-t) * d + 0) by (nonlinear_arith)
                    requires
                        p as int == d * t + m,
                        m == 0,
                        n as int == -p,
                ;
                lemma_fundamental_div_mod_converse(n as int, d as int, -(t as int), 0);
            }
            -t
        } else {
            proof {
                assert(n as int == (-t - 1) * d + (d - m)) by (nonlinear_arith)
                    requires
                        p as int == d * t + m,
                        n as int == -p,
                ;
                lemma_fundamental_div_mod_converse(
                    n as int,
                    d as int,
                    -(t as int) - 1,
                    d as int - m as int,
                );
            }
            -t - 1
        }
    }
}

/// The fixed-point product `a * b`.
pub fn multiply(a: i64, b: i64) -> (r: i64)
    requires
        fits(mul_spec(a as int, b as int)),
    ensures
        r == mul_spec(a as int, b as int),
{
    proof {
        assert(-0x4000_0000_0000_0000_0000_0000_0000_0000 <= a as int * b as int
            <= 0x4000_0000_0000_0000_0000_0000_0000_0000) by (nonlinear_arith)
            requires
                -0x8000_0000_0000_0000 <= a as int <= 0x8000_0000_0000_0000,
                -0x8000_0000_0000_0000 <= b as int <= 0x8000_0000_0000_0000,
        ;
    }
    let p: i128 = (a as i128) * (b as i128);
    let q: i128 = floor_div(p, ONE as i128);
    q as i64
}

/// The fixed-point quotient `a / b` for a positive divisor.
pub fn divide(a: i64, b: i64) -> (r: i64)
    requires
        b > 0,
        fits(div_spec(a as int, b as int)),
    ensures
        r == div_spec(a as int, b as int),
{
    let p: i128 = (a as i128) * (ONE as i128);
    let q: i128 = floor_div(p, b as i128);
    q as i64
}

/// The integer square root of `n`, rounded down.
pub fn isqrt(n: u128) -> (r: u64)
    ensures
        is_floor_sqrt(n as int, r as int),
        r == floor_sqrt(n as int),
{
    let mut lo: u128 = 0;
    let mut hi: u128 = 0x1_0000_0000_0000_0000;
    assert(n < hi * hi) by (nonlinear_arith)
        requires
            n <= u128::MAX,
            hi == 0x1_0000_0000_0000_0000,
    ;
    while hi - lo > 1
        invariant
            lo < hi <= 0x1_0000_0000_0000_0000,
            lo * lo <= n,
            n < hi * hi,
        decreases hi - lo,
    {
        let mid: u128 = lo + (hi - lo) / 2;
        proof {
            assert(mid * mid <= u128::MAX) by (nonlinear_arith)
                requires
                    0 <= mid < 0x1_0000_0000_0000_0000,
            ;
        }
        let sq: u128 = mid * mid;
        if sq <= n {
            lo = mid;
        } else {
            hi = mid;
        }
    }
    proof {
        lemma_floor_sqrt_unique(n as int, lo as int);
    }
    lo as u64
}

/// The fixed-point square root of a value that is not negative.
pub fn sqrt(a: i64) -> (r: i64)
    requires
        a >= 0,
    ensures
        r == sqrt_spec(a as int),
        is_floor_sqrt(a as int * ONE as int, r as int),
{
    let wide: u128 = a as u128;
    let n: u128 = wide * 0x1_0000_0000;
    let r: u64 = isqrt(n);
    proof {
        assert(0x1_0000_0000_0000int * 0x1_0000_0000_0000int
            == 0x1_0000_0000_0000_0000_0000_0000int) by (nonlinear_arith);
        lemma_floor_sqrt_range(n as int, 0, 0x1_0000_0000_0000);
    }
    r as i64
}

} // verus!
