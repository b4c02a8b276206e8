//! Whole-number arithmetic that the geometry rests on: products that do
//! not overflow, division that rounds down, and square roots.

use vstd::prelude::*;

verus! {

/// The bound on a product that follows from bounds on its factors.
pub proof fn lemma_mul_bound(a: int, b: int, ba: int, bb: int)
    by (nonlinear_arith)
    requires
        -ba <= a <= ba,
        -bb <= b <= bb,
    ensures
        -(ba * bb) <= a * b <= ba * bb,
{
}

/// The product of two grid coordinates.
pub fn mul_grid(a: i32, b: i32) -> (r: i64)
    ensures
        r == a * b,
        -0x4000_0000_0000_0000 <= r <= 0x4000_0000_0000_0000,
{
    proof {
        lemma_mul_bound(a as int, b as int, 0x8000_0000, 0x8000_0000);
    }
    (a as i64) * (b as i64)
}

/// The largest magnitude of a scalar triple product of vectors whose
/// components are differences of coordinates in range.
pub const TRIPLE_MAX: i64 = 0x6000_0000_0000_0000;

/// The two-by-two determinant `a * b - c * d` of differences of coordinates
/// in range.
pub fn minor(a: i32, b: i32, c: i32, d: i32) -> (r: i64)
    requires
        -0x10_0000 <= a <= 0x10_0000,
        -0x10_0000 <= b <= 0x10_0000,
        -0x10_0000 <= c <= 0x10_0000,
        -0x10_0000 <= d <= 0x10_0000,
    ensures
        r == a * b - c * d,
        -0x200_0000_0000 <= r <= 0x200_0000_0000,
{
    proof {
        lemma_mul_bound(a as int, b as int, 0x10_0000, 0x10_0000);
        lemma_mul_bound(c as int, d as int, 0x10_0000, 0x10_0000);
    }
    (a as i64) * (b as i64) - (c as i64) * (d as i64)
}

/// The product of two 64-bit integers, in 128 bits.
pub fn mul_wide(a: i64, b: i64) -> (r: i128)
    ensures
        r == a * b,
{
    proof {
        lemma_mul_bound(a as int, b as int, 0x8000_0000_0000_0000, 0x8000_0000_0000_0000);
    }
    (a as i128) * (b as i128)
}

/// The quotient `n / d` rounded down, for a positive divisor.
pub fn floor_div(n: i128, d: i128) -> (q: i128)
    requires
        d > 0,
        n > i128::MIN,
    ensures
        q == n as int / d as int,
{
    if n >= 0 {
        n / d
    } else {
        let m: i128 = -n;
        let q: i128 = m / d;
        let r: i128 = m % d;
        proof {
            lemma_floor_of_negative(m as int, d as int);
        }
        if r == 0 {
            -q
        } else {
            -q - 1
        }
    }
}

/// How the quotient of a negative number, rounded down, comes from the
/// quotient of its magnitude.
pub proof fn lemma_floor_of_negative(m: int, d: int)
    requires
        m > 0,
        d > 0,
    ensures
        (-m) / d == (if m % d == 0 {
            -(m / d)
        } else {
            -(m / d) - 1
        }),
{
    vstd::arithmetic::div_mod::lemma_fundamental_div_mod(m, d);
    let q = m / d;
    let r = m % d;
    if r == 0 {
        assert(-m == d * (-q) + 0) by (nonlinear_arith)
            requires
                m == d * q + r,
                r == 0,
        ;
        vstd::arithmetic::div_mod::lemma_fundamental_div_mod_converse(-m, d, -q, 0);
    } else {
        assert(-m == d * (-q - 1) + (d - r)) by (nonlinear_arith)
            requires
                m == d * q + r,
        ;
        vstd::arithmetic::div_mod::lemma_fundamental_div_mod_converse(-m, d, -q - 1, d - r);
    }
}

/// A quotient lies between the bounds between whose multiples the dividend
/// lies.
pub proof fn lemma_quotient_between(x: int, d: int, lo: int, hi: int)
    requires
        d > 0,
        lo * d <= x <= hi * d,
    ensures
        lo <= x / d <= hi,
{
    vstd::arithmetic::div_mod::lemma_div_is_ordered(lo * d, x, d);
    vstd::arithmetic::div_mod::lemma_div_is_ordered(x, hi * d, d);
    vstd::arithmetic::div_mod::lemma_div_multiples_vanish(lo, d);
    vstd::arithmetic::div_mod::lemma_div_multiples_vanish(hi, d);
    assert(lo * d == d * lo && hi * d == d * hi) by (nonlinear_arith);
}

/// `r` is the square root of `n`, rounded down.
pub open spec fn is_floor_sqrt(r: int, n: int) -> bool {
    0 <= r && r * r <= n < (r + 1) * (r + 1)
}

/// The square root of `n`, rounded down.
pub open spec fn floor_sqrt(n: int) -> int {
    choose|r: int| is_floor_sqrt(r, n)
}

/// The square root of `n`, rounded up.
pub open spec fn ceil_sqrt(n: int) -> int {
    if floor_sqrt(n) * floor_sqrt(n) == n {
        floor_sqrt(n)
    } else {
        floor_sqrt(n) + 1
    }
}

/// Squares keep the order of numbers that are not negative.
pub proof fn lemma_square_order(a: int, b: int)
    by (nonlinear_arith)
    requires
        0 <= a,
        0 <= b,
        a * a < (b + 1) * (b + 1),
    ensures
        a <= b,
{
}

/// A number has one rounded-down square root.
pub proof fn lemma_floor_sqrt_unique(r: int, n: int)
    requires
        is_floor_sqrt(r, n),
    ensures
        floor_sqrt(n) == r,
{
    let s = floor_sqrt(n);
    lemma_square_order(r, s);
    lemma_square_order(s, r);
}

/// The square root of `n`, rounded down.
pub fn isqrt(n: i128) -> (r: i64)
    requires
        0 <= n < 0x1000_0000_0000_0000_0000_0000_0000_0000,
    ensures
        is_floor_sqrt(r as int, n as int),
        r == floor_sqrt(n as int),
        r < 0x4000_0000_0000_0000,
{
    let mut lo: i128 = 0;
    let mut hi: i128 = 0x4000_0000_0000_0000;
    assert(0x4000_0000_0000_0000int * 0x4000_0000_0000_0000int
        == 0x1000_0000_0000_0000_0000_0000_0000_0000int) by (nonlinear_arith);
    while hi - lo > 1
        invariant
            0 <= lo < hi <= 0x4000_0000_0000_0000,
            lo * lo <= n < hi * hi,
        decreases hi - lo,
    {
        let mid: i128 = lo + (hi - lo) / 2;
        proof {
            lemma_mul_bound(mid as int, mid as int, 0x4000_0000_0000_0000, 0x4000_0000_0000_0000);
        }
        if mid * mid <= n {
            lo = mid;
        } else {
            hi = mid;
        }
    }
    proof {
        lemma_floor_sqrt_unique(lo as int, n as int);
    }
    lo as i64
}

/// The square root of `n`, rounded up.
pub fn isqrt_up(n: i128) -> (r: i64)
    requires
        0 <= n < 0x1000_0000_0000_0000_0000_0000_0000_0000,
    ensures
        r == ceil_sqrt(n as int),
        0 <= r <= 0x4000_0000_0000_0000,
{
    let r: i64 = isqrt(n);
    proof {
        lemma_mul_bound(r as int, r as int, 0x4000_0000_0000_0000, 0x4000_0000_0000_0000);
    }
    if (r as i128) * (r as i128) == n {
        r
    } else {
        r + 1
    }
}

/// The magnitude of a number.
pub open spec fn magnitude(x: int) -> int {
    if x < 0 {
        -x
    } else {
        x
    }
}

/// The greatest magnitude among the components.
pub open spec fn longest(v: (int, int, int)) -> int {
    let a = magnitude(v.0);
    let b = magnitude(v.1);
    let c = magnitude(v.2);
    if a >= b && a >= c {
        a
    } else if b >= c {
        b
    } else {
        c
    }
}

/// The magnitude of a wide number.
pub fn abs_wide(x: i128) -> (r: i128)
    requires
        x > i128::MIN,
    ensures
        r == magnitude(x as int),
{
    if x < 0 {
        -x
    } else {
        x
    }
}

} // verus!
