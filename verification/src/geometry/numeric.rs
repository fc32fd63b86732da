//! Integer square roots and the arithmetic facts that the geometry rests on.

use vstd::prelude::*;

verus! {

/// `r` is the integer square root of `n`: the largest natural number whose square
/// does not exceed `n`.
pub open spec fn is_floor_sqrt(n: int, r: int) -> bool {
    &&& 0 <= r
    &&& r * r <= n
    &&& n < (r + 1) * (r + 1)
}

/// The integer square root of `n`, for `n >= 0`.
pub open spec fn floor_sqrt(n: int) -> int {
    choose|r: int| is_floor_sqrt(n, r)
}

/// The least natural number whose square is at least `n`, for `n >= 0`.
pub open spec fn ceil_sqrt(n: int) -> int {
    let r = floor_sqrt(n);
    if r * r == n {
        r
    } else {
        r + 1
    }
}

/// Squaring is monotone on the natural numbers.
pub proof fn lemma_square_monotone(a: int, b: int)
    by (nonlinear_arith)
    requires
        0 <= a <= b,
    ensures
        a * a <= b * b,
{
}

/// Squaring is strictly monotone on the natural numbers.
pub proof fn lemma_square_strictly_monotone(a: int, b: int)
    by (nonlinear_arith)
    requires
        0 <= a < b,
    ensures
        a * a < b * b,
{
}

/// The product of two natural numbers grows with each factor.
pub proof fn lemma_product_monotone(a: int, b: int, c: int, d: int)
    by (nonlinear_arith)
    requires
        0 <= a <= c,
        0 <= b <= d,
    ensures
        a * b <= c * d,
{
}

/// The square of a sum.
pub proof fn lemma_square_of_sum(a: int, b: int)
    by (nonlinear_arith)
    ensures
        (a + b) * (a + b) == a * a + 2 * (a * b) + b * b,
{
}

/// The square of a product is the product of the squares.
pub proof fn lemma_square_of_product(a: int, b: int)
    by (nonlinear_arith)
    ensures
        (a * b) * (a * b) == (a * a) * (b * b),
{
}

/// Every natural number has an integer square root.
pub proof fn lemma_floor_sqrt_exists(n: int) -> (r: int)
    requires
        n >= 0,
    ensures
        is_floor_sqrt(n, r),
    decreases n,
{
    if n == 0 {
        assert(is_floor_sqrt(0, 0));
        0
    } else {
        let p = lemma_floor_sqrt_exists(n - 1);
        let q = p + 1;
        if q * q <= n {
            assert((q + 1) * (q + 1) > q * q) by (nonlinear_arith)
                requires
                    q >= 0,
            ;
            assert(is_floor_sqrt(n, q));
            q
        } else {
            assert(is_floor_sqrt(n, p));
            p
        }
    }
}

/// The integer square root is unique.
pub proof fn lemma_floor_sqrt_unique(n: int, r1: int, r2: int)
    requires
        is_floor_sqrt(n, r1),
        is_floor_sqrt(n, r2),
    ensures
        r1 == r2,
{
    if r1 < r2 {
        lemma_square_monotone(r1 + 1, r2);
    } else if r2 < r1 {
        lemma_square_monotone(r2 + 1, r1);
    }
}

/// `floor_sqrt(n)` is the integer square root of `n`.
pub proof fn lemma_floor_sqrt(n: int)
    requires
        n >= 0,
    ensures
        is_floor_sqrt(n, floor_sqrt(n)),
{
    let r = lemma_floor_sqrt_exists(n);
}

/// Whoever exhibits the integer square root of `n` knows `floor_sqrt(n)`.
pub proof fn lemma_floor_sqrt_is(n: int, r: int)
    requires
        is_floor_sqrt(n, r),
    ensures
        floor_sqrt(n) == r,
{
    lemma_floor_sqrt_unique(n, r, floor_sqrt(n));
}

/// The integer square root is monotone.
pub proof fn lemma_floor_sqrt_monotone(a: int, b: int)
    requires
        0 <= a <= b,
    ensures
        floor_sqrt(a) <= floor_sqrt(b),
{
    lemma_floor_sqrt(a);
    lemma_floor_sqrt(b);
    let ra = floor_sqrt(a);
    let rb = floor_sqrt(b);
    if rb < ra {
        lemma_square_monotone(rb + 1, ra);
    }
}

/// The integer square root of a perfect square.
pub proof fn lemma_floor_sqrt_of_square(r: int)
    requires
        r >= 0,
    ensures
        floor_sqrt(r * r) == r,
{
    assert(r * r < (r + 1) * (r + 1)) by (nonlinear_arith)
        requires
            r >= 0,
    ;
    lemma_floor_sqrt_is(r * r, r);
}

/// The square of `ceil_sqrt(n)` reaches `n`.
pub proof fn lemma_ceil_sqrt(n: int)
    requires
        n >= 0,
    ensures
        0 <= ceil_sqrt(n),
        n <= ceil_sqrt(n) * ceil_sqrt(n),
{
    lemma_floor_sqrt(n);
}

/// No natural number below `ceil_sqrt(n)` has a square that reaches `n`.
pub proof fn lemma_ceil_sqrt_least(n: int, s: int)
    requires
        n >= 0,
        0 <= s,
        n <= s * s,
    ensures
        ceil_sqrt(n) <= s,
{
    lemma_floor_sqrt(n);
    let r = floor_sqrt(n);
    if s < ceil_sqrt(n) {
        if r * r == n {
            lemma_square_monotone(s + 1, r);
            assert((s + 1) * (s + 1) > s * s) by (nonlinear_arith)
                requires
                    s >= 0,
            ;
        } else {
            lemma_square_monotone(s, r);
        }
    }
}

/// The product of two numbers of bounded absolute value is bounded by the product of
/// the bounds.
pub proof fn lemma_product_bound(a: int, b: int, m: int, n: int)
    by (nonlinear_arith)
    requires
        -m <= a <= m,
        -n <= b <= n,
    ensures
        -(m * n) <= a * b <= m * n,
{
}

/// Lagrange's identity in the plane: the squares of the cross product and of the dot
/// product of two vectors add up to the product of their squared lengths.
pub proof fn lemma_lagrange_identity(ax: int, ay: int, bx: int, by: int)
    ensures
        (ax * by - ay * bx) * (ax * by - ay * bx) + (ax * bx + ay * by) * (ax * bx + ay * by)
            == (ax * ax + ay * ay) * (bx * bx + by * by),
{
    let p = ax * by;
    let q = ay * bx;
    let r = ax * bx;
    let s = ay * by;
    assert((p - q) * (p - q) == p * p - 2 * (p * q) + q * q) by (nonlinear_arith);
    assert((r + s) * (r + s) == r * r + 2 * (r * s) + s * s) by (nonlinear_arith);
    assert(p * q == r * s) by (nonlinear_arith)
        requires
            p == ax * by,
            q == ay * bx,
            r == ax * bx,
            s == ay * by,
    ;
    let a2 = ax * ax + ay * ay;
    let b2 = bx * bx + by * by;
    assert(a2 * b2 == (ax * ax) * (bx * bx) + (ax * ax) * (by * by) + (ay * ay) * (bx * bx) + (ay
        * ay) * (by * by)) by (nonlinear_arith)
        requires
            a2 == ax * ax + ay * ay,
            b2 == bx * bx + by * by,
    ;
    assert((ax * ax) * (bx * bx) == r * r) by (nonlinear_arith)
        requires
            r == ax * bx,
    ;
    assert((ax * ax) * (by * by) == p * p) by (nonlinear_arith)
        requires
            p == ax * by,
    ;
    assert((ay * ay) * (bx * bx) == q * q) by (nonlinear_arith)
        requires
            q == ay * bx,
    ;
    assert((ay * ay) * (by * by) == s * s) by (nonlinear_arith)
        requires
            s == ay * by,
    ;
}

/// A square is not negative.
pub proof fn lemma_square_nonnegative(a: int)
    by (nonlinear_arith)
    ensures
        a * a >= 0,
{
}

/// A quotient is bounded by whatever bounds the dividend after multiplication.
pub proof fn lemma_quotient_bound(n: int, d: int, q: int)
    by (nonlinear_arith)
    requires
        0 <= n <= d * q,
        0 < d,
        0 <= q,
    ensures
        0 <= n / d <= q,
{
}

/// A quotient and its divisor bracket the dividend.
pub proof fn lemma_division_brackets(a: int, d: int)
    requires
        0 <= a,
        0 < d,
    ensures
        0 <= a / d,
        (a / d) * d <= a < (a / d + 1) * d,
{
    vstd::arithmetic::div_mod::lemma_fundamental_div_mod(a, d);
    assert(d * (a / d) == (a / d) * d) by (nonlinear_arith);
    assert((a / d + 1) * d == (a / d) * d + d) by (nonlinear_arith);
    assert(0 <= a / d) by (nonlinear_arith)
        requires
            0 <= a,
            0 < d,
    ;
}

/// A step of a product.
pub proof fn lemma_product_step(a: int, d: int)
    by (nonlinear_arith)
    ensures
        (a + 1) * d == a * d + d,
{
}

/// Computes the integer square root of `n`.
pub fn integer_sqrt(n: u64) -> (r: u64)
    ensures
        r as int == floor_sqrt(n as int),
        r < 0x1_0000_0000,
{
    let mut lo: u64 = 0;
    let mut hi: u64 = 0x1_0000_0000;
    assert(n < hi * hi) by (nonlinear_arith)
        requires
            hi == 0x1_0000_0000,
            n <= u64::MAX,
    ;
    while hi - lo > 1
        invariant
            lo < hi <= 0x1_0000_0000,
            lo * lo <= n,
            n < hi * hi,
        decreases hi - lo,
    {
        let mid: u64 = lo + (hi - lo) / 2;
        assert(mid * mid <= 0xffff_ffff * 0xffff_ffff) by (nonlinear_arith)
            requires
                mid <= 0xffff_ffff,
        ;
        if mid * mid <= n {
            lo = mid;
        } else {
            hi = mid;
        }
    }
    proof {
        lemma_floor_sqrt_is(n as int, lo as int);
    }
    lo
}

/// Computes the least natural number whose square is at least `n`.
pub fn integer_sqrt_ceil(n: u64) -> (r: u64)
    ensures
        r as int == ceil_sqrt(n as int),
        r <= 0x1_0000_0000,
{
    let r: u64 = integer_sqrt(n);
    assert(r * r <= 0xffff_ffff * 0xffff_ffff) by (nonlinear_arith)
        requires
            r <= 0xffff_ffff,
    ;
    if r * r == n {
        r
    } else {
        r + 1
    }
}

} // verus!
