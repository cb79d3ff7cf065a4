//! Integer arithmetic shared by the extractor and the chain solver.
use vstd::arithmetic::div_mod::{lemma_fundamental_div_mod, lemma_fundamental_div_mod_converse};
use vstd::prelude::*;

verus! {

/// The ratio `num / den` of two integers, with a positive denominator.
#[derive(Debug, Clone, Copy, PartialEq, Eq)]
pub struct Fraction {
    pub num: i64,
    pub den: i64,
}

/// The weighted mean `a * t + b * (1 - t)` for `t = num / den`, rounded
/// towards negative infinity. It is `a` for `t = 1` and `b` for `t = 0`.
pub open spec fn lerp_value(a: int, b: int, num: int, den: int) -> int {
    (a * num + b * (den - num)) / den
}

/// Both products of the weighted mean, and their sum, fit in 64 bits.
pub open spec fn lerp_fits(a: int, b: int, num: int, den: int) -> bool {
    &&& i64::MIN <= a * num <= i64::MAX
    &&& i64::MIN <= b * (den - num) <= i64::MAX
    &&& i64::MIN <= a * num + b * (den - num) <= i64::MAX
}

/// A quotient by a positive number is no larger in magnitude than the
/// dividend.
pub proof fn lemma_floor_div_bound(a: int, b: int)
    requires
        b > 0,
    ensures
        a >= 0 ==> 0 <= a / b <= a,
        a < 0 ==> a <= a / b < 0,
{
    lemma_fundamental_div_mod(a, b);
    let q = a / b;
    let r = a % b;
    assert(0 <= r < b) by {
        vstd::arithmetic::div_mod::lemma_mod_bound(a, b);
    }
    assert(a >= 0 ==> 0 <= q <= a) by (nonlinear_arith)
        requires
            a == b * q + r,
            0 <= r < b,
            b > 0,
    ;
    assert(a < 0 ==> a <= q < 0) by (nonlinear_arith)
        requires
            a == b * q + r,
            0 <= r < b,
            b > 0,
    ;
}

/// A dividend between two multiples of a positive divisor gives a quotient
/// between the two factors.
pub proof fn lemma_floor_div_range(a: int, d: int, lo: int, hi: int)
    requires
        d > 0,
        lo * d <= a <= hi * d,
    ensures
        lo <= a / d <= hi,
{
    lemma_fundamental_div_mod(a, d);
    let q = a / d;
    let r = a % d;
    assert(0 <= r < d) by {
        vstd::arithmetic::div_mod::lemma_mod_bound(a, d);
    }
    assert(lo <= q <= hi) by (nonlinear_arith)
        requires
            a == d * q + r,
            0 <= r < d,
            lo * d <= a <= hi * d,
    ;
}

/// The quotient of `a` by a positive `b`, rounded towards negative infinity.
pub fn floor_div(a: i64, b: i64) -> (q: i64)
    requires
        b > 0,
    ensures
        q == a as int / b as int,
{
    if a >= 0 {
        a / b
    } else {
        let m: i128 = -(a as i128);
        let d: i128 = b as i128;
        let c: i128 = (m + (d - 1)) / d;
        proof {
            let mi = m as int;
            let di = d as int;
            let ci = c as int;
            let r = (mi + (di - 1)) % di;
            lemma_fundamental_div_mod(mi + (di - 1), di);
            assert(di * ci == ci * di) by (nonlinear_arith);
            assert(ci >= 1 && ci <= mi) by (nonlinear_arith)
                requires
                    mi + (di - 1) == ci * di + r,
                    0 <= r < di,
                    mi >= 1,
                    di >= 1,
            ;
            assert(a as int == (-ci) * di + (di - 1 - r)) by (nonlinear_arith)
                requires
                    mi + (di - 1) == ci * di + r,
                    a as int == -mi,
            ;
            lemma_fundamental_div_mod_converse(a as int, di, -ci, di - 1 - r);
        }
        (-c) as i64
    }
}

/// The quotient of `a` by a positive `b`, rounded towards zero.
pub open spec fn spec_div_toward_zero(a: int, b: int) -> int {
    if a >= 0 {
        a / b
    } else {
        -((-a) / b)
    }
}

/// A quotient rounded towards zero has the sign of the dividend and is no
/// larger in magnitude.
pub proof fn lemma_div_toward_zero_bound(a: int, b: int)
    requires
        b > 0,
    ensures
        a >= 0 ==> 0 <= spec_div_toward_zero(a, b) <= a,
        a <= 0 ==> a <= spec_div_toward_zero(a, b) <= 0,
{
    lemma_floor_div_bound(a, b);
    lemma_floor_div_bound(-a, b);
}

/// A dividend of magnitude at most `b * m` gives a quotient of magnitude at
/// most `m`.
pub proof fn lemma_div_toward_zero_scaled_bound(a: int, b: int, m: int)
    requires
        b > 0,
        m >= 0,
        -(b * m) <= a <= b * m,
    ensures
        -m <= spec_div_toward_zero(a, b) <= m,
{
    let p = if a >= 0 {
        a
    } else {
        -a
    };
    lemma_fundamental_div_mod(p, b);
    let q = p / b;
    let r = p % b;
    assert(0 <= r < b) by {
        vstd::arithmetic::div_mod::lemma_mod_bound(p, b);
    }
    assert(q <= m) by (nonlinear_arith)
        requires
            p == b * q + r,
            0 <= r,
            b > 0,
            p <= b * m,
    ;
    lemma_floor_div_bound(p, b);
}

/// The quotient of `a` by a positive `b`, rounded towards zero.
pub fn div_toward_zero(a: i128, b: i128) -> (q: i128)
    requires
        b > 0,
        a > i128::MIN,
    ensures
        q == spec_div_toward_zero(a as int, b as int),
{
    proof {
        lemma_div_toward_zero_bound(a as int, b as int);
    }
    if a >= 0 {
        a / b
    } else {
        -((-a) / b)
    }
}

/// `r` is the square root of `n`, rounded down.
pub open spec fn is_isqrt(n: int, r: int) -> bool {
    0 <= r && r * r <= n < (r + 1) * (r + 1)
}

/// The square root of `n`, rounded down, for `n` from zero up.
pub open spec fn spec_isqrt(n: int) -> int {
    choose|r: int| is_isqrt(n, r)
}

/// A number has at most one rounded-down square root.
pub proof fn lemma_isqrt_unique(n: int, r1: int, r2: int)
    requires
        is_isqrt(n, r1),
        is_isqrt(n, r2),
    ensures
        r1 == r2,
{
    assert(r1 == r2) by (nonlinear_arith)
        requires
            0 <= r1,
            0 <= r2,
            r1 * r1 <= n < (r1 + 1) * (r1 + 1),
            r2 * r2 <= n < (r2 + 1) * (r2 + 1),
    ;
}

/// Every number from zero up has a rounded-down square root.
pub proof fn lemma_isqrt_exists(n: int)
    requires
        n >= 0,
    ensures
        is_isqrt(n, spec_isqrt(n)),
    decreases n,
{
    if n == 0 {
        assert(is_isqrt(0, 0));
    } else {
        lemma_isqrt_exists(n - 1);
        let r = spec_isqrt(n - 1);
        if n < (r + 1) * (r + 1) {
            assert(is_isqrt(n, r));
        } else {
            assert(is_isqrt(n, r + 1)) by (nonlinear_arith)
                requires
                    0 <= r,
                    r * r <= n - 1 < (r + 1) * (r + 1),
                    n >= (r + 1) * (r + 1),
            ;
        }
    }
}

/// A rounded-down square root, once found, is the one that `spec_isqrt`
/// names.
pub proof fn lemma_isqrt_is(n: int, r: int)
    requires
        is_isqrt(n, r),
    ensures
        spec_isqrt(n) == r,
{
    lemma_isqrt_unique(n, r, spec_isqrt(n));
}

/// The square root of `n`, rounded down.
pub fn isqrt(n: u128) -> (r: u64)
    requires
        n < 0x4000_0000_0000_0000_0000_0000_0000_0000,
    ensures
        is_isqrt(n as int, r as int),
        r == spec_isqrt(n as int),
{
    let mut lo: u128 = 0;
    let mut hi: u128 = 0x8000_0000_0000_0000;
    assert(0x8000_0000_0000_0000 * 0x8000_0000_0000_0000
        == 0x4000_0000_0000_0000_0000_0000_0000_0000) by (nonlinear_arith);
    while hi - lo > 1
        invariant
            lo < hi <= 0x8000_0000_0000_0000,
            lo * lo <= n,
            n < hi * hi,
        decreases hi - lo,
    {
        let mid = lo + (hi - lo) / 2;
        assert(mid * mid < 0x4000_0000_0000_0000_0000_0000_0000_0000) by (nonlinear_arith)
            requires
                0 <= mid < 0x8000_0000_0000_0000,
        ;
        if mid * mid <= n {
            lo = mid;
        } else {
            hi = mid;
        }
    }
    proof {
        lemma_isqrt_is(n as int, lo as int);
    }
    lo as u64
}

} // verus!
