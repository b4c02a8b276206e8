//! Low-discrepancy sample points.

use crate::arith::lemma_mul_bound;
use crate::vector::Ratio;
use vstd::prelude::*;

verus! {

/// The denominator of the radical inverse of `index` in `base`: the base
/// to the power of the number of digits of `index`.
pub open spec fn radical_den(index: nat, base: nat) -> nat
    decreases index,
{
    if index == 0 || base < 2 {
        1
    } else {
        proof {
            vstd::arithmetic::div_mod::lemma_div_decreases(index as int, base as int);
        }
        base * radical_den(index / base, base)
    }
}

/// The numerator of the radical inverse of `index` in `base`: the digits of
/// `index`, read in reverse, as a number in that base. Over
/// [`radical_den`] it is the number whose digits behind the point are the
/// digits of `index` mirrored at the point.
pub open spec fn radical_num(index: nat, base: nat) -> nat
    decreases index,
{
    if index == 0 || base < 2 {
        0
    } else {
        proof {
            vstd::arithmetic::div_mod::lemma_div_decreases(index as int, base as int);
        }
        (index % base) * radical_den(index / base, base) + radical_num(index / base, base)
    }
}

/// One step of the radical inverse: taking off the last digit.
proof fn lemma_radical_step(i: nat, b: nat, num: int, den: int)
    requires
        i > 0,
        b >= 2,
    ensures
        (den * b) * radical_den(i / b, b) == den * radical_den(i, b),
        (num * b + i % b) * radical_den(i / b, b) + radical_num(i / b, b) == num * radical_den(i, b)
            + radical_num(i, b),
{
    let rest = radical_den(i / b, b) as int;
    let d = (i % b) as int;
    assert((den * b) * rest == den * (b * rest)) by (nonlinear_arith);
    assert((num * b + d) * rest == num * (b * rest) + d * rest) by (nonlinear_arith);
}

/// The Halton point of `index` in `base`: the radical inverse, an exact
/// fraction from zero up to, but not including, one. An index that is not
/// positive gives zero.
pub fn halton(index: i32, base: i32) -> (r: Ratio)
    requires
        base >= 2,
    ensures
        r.num == radical_num(
            if index > 0 {
                index as nat
            } else {
                0
            },
            base as nat,
        ),
        r.den == radical_den(
            if index > 0 {
                index as nat
            } else {
                0
            },
            base as nat,
        ),
        0 <= r.num < r.den,
{
    let ghost start: nat = if index > 0 {
        index as nat
    } else {
        0
    };
    let mut num: i64 = 0;
    let mut den: i64 = 1;
    let mut i: i32 = index;
    while i > 0
        invariant
            base >= 2,
            i <= index || i <= 0,
            0 <= num < den,
            i > 0 ==> den * i <= index,
            i > 0 ==> den * radical_den(i as nat, base as nat) == radical_den(start, base as nat),
            i > 0 ==> num * radical_den(i as nat, base as nat) + radical_num(
                i as nat,
                base as nat,
            ) == radical_num(start, base as nat),
            i <= 0 ==> den == radical_den(start, base as nat),
            i <= 0 ==> num == radical_num(start, base as nat),
        decreases i,
    {
        proof {
            lemma_radical_step(i as nat, base as nat, num as int, den as int);
            vstd::arithmetic::div_mod::lemma_fundamental_div_mod(i as int, base as int);
            assert(den <= index) by (nonlinear_arith)
                requires
                    den * i <= index,
                    i >= 1,
                    den >= 0,
            ;
            lemma_mul_bound(den as int, base as int, 0x8000_0000, 0x8000_0000);
            lemma_mul_bound(num as int, base as int, 0x8000_0000, 0x8000_0000);
            assert(0 <= num * base && num * base + i % base < den * base) by (nonlinear_arith)
                requires
                    0 <= num < den,
                    0 <= i % base < base,
            ;
            assert((den * base) * (i / base) <= den * i) by (nonlinear_arith)
                requires
                    den >= 0,
                    base * (i / base) <= i,
            ;
            vstd::arithmetic::div_mod::lemma_div_decreases(i as int, base as int);
            vstd::arithmetic::div_mod::lemma_div_pos_is_pos(i as int, base as int);
            if i / base == 0 {
                assert(radical_den(0, base as nat) == 1);
                assert(radical_num(0, base as nat) == 0);
                assert((den * base) * 1 == den * base);
                assert((num * base + i % base) * 1 == num * base + i % base);
            }
        }
        num = num * (base as i64) + (i % base) as i64;
        den = den * (base as i64);
        i = i / base;
    }
    Ratio { num, den }
}

} // verus!
