//! Grid vectors and exact ray parameters.
//!
//! Geometry lives on an integer grid: a coordinate is a fixed-point number in
//! which [`UNIT`] stands for one. Distances along a ray are kept as exact
//! fractions, so that every comparison the intersection routines make is the
//! comparison of the true values.

use crate::arith::{
    abs_wide, floor_div, lemma_mul_bound, lemma_quotient_between, longest, minor, mul_grid,
    mul_wide, TRIPLE_MAX,
};
use vstd::prelude::*;

verus! {

/// Grid steps per unit of length.
pub const UNIT: i32 = 4096;

/// Largest coordinate magnitude the intersection routines accept. With this
/// bound every intermediate product of the triangle test fits in 64 bits.
pub const COORD_MAX: i32 = 524288;

/// A point or a direction on the integer grid.
#[derive(Clone, Copy, Debug, PartialEq, Eq, Structural)]
pub struct Vec3 {
    pub x: i32,
    pub y: i32,
    pub z: i32,
}

impl Vec3 {
    pub fn new(x: i32, y: i32, z: i32) -> (v: Vec3)
        ensures
            v == (Vec3 { x, y, z }),
    {
        Vec3 { x, y, z }
    }

    /// Every component lies within `-COORD_MAX ..= COORD_MAX`.
    pub open spec fn in_range(self) -> bool {
        &&& -COORD_MAX <= self.x <= COORD_MAX
        &&& -COORD_MAX <= self.y <= COORD_MAX
        &&& -COORD_MAX <= self.z <= COORD_MAX
    }

    pub fn is_in_range(&self) -> (r: bool)
        ensures
            r == self.in_range(),
    {
        -COORD_MAX <= self.x && self.x <= COORD_MAX && -COORD_MAX <= self.y && self.y <= COORD_MAX
            && -COORD_MAX <= self.z && self.z <= COORD_MAX
    }

    pub open spec fn is_zero(self) -> bool {
        self.x == 0 && self.y == 0 && self.z == 0
    }

    /// The scalar product.
    pub open spec fn dot(self, other: Vec3) -> int {
        self.x * other.x + self.y * other.y + self.z * other.z
    }

    /// The squared length.
    pub open spec fn norm2(self) -> int {
        self.dot(self)
    }

    /// The three components of the vector product.
    pub open spec fn cross(self, other: Vec3) -> (int, int, int) {
        (
            self.y * other.z - self.z * other.y,
            self.z * other.x - self.x * other.z,
            self.x * other.y - self.y * other.x,
        )
    }

    /// Every component lies within `-bound ..= bound`.
    pub open spec fn within(self, bound: int) -> bool {
        &&& -bound <= self.x <= bound
        &&& -bound <= self.y <= bound
        &&& -bound <= self.z <= bound
    }

    /// The difference of two grid vectors, which is a grid vector where
    /// both are in range.
    pub open spec fn minus(self, other: Vec3) -> Vec3 {
        Vec3 {
            x: (self.x - other.x) as i32,
            y: (self.y - other.y) as i32,
            z: (self.z - other.z) as i32,
        }
    }

    /// The scalar triple product `self . (b x c)`: the determinant of the
    /// three vectors.
    pub open spec fn triple(self, b: Vec3, c: Vec3) -> int {
        self.x * (b.y * c.z - b.z * c.y) + self.y * (b.z * c.x - b.x * c.z) + self.z * (b.x * c.y
            - b.y * c.x)
    }

    /// The difference of two vectors in range.
    pub fn difference(&self, other: &Vec3) -> (r: Vec3)
        requires
            self.in_range(),
            other.in_range(),
        ensures
            r == self.minus(*other),
            r.within(2 * COORD_MAX),
            r.x == self.x - other.x,
            r.y == self.y - other.y,
            r.z == self.z - other.z,
    {
        Vec3 { x: self.x - other.x, y: self.y - other.y, z: self.z - other.z }
    }

    /// The scalar triple product of three vectors whose components are
    /// differences of coordinates in range.
    pub fn triple_product(&self, b: &Vec3, c: &Vec3) -> (r: i64)
        requires
            self.within(2 * COORD_MAX),
            b.within(2 * COORD_MAX),
            c.within(2 * COORD_MAX),
        ensures
            r == self.triple(*b, *c),
            -TRIPLE_MAX <= r <= TRIPLE_MAX,
    {
        let m1: i64 = minor(b.y, c.z, b.z, c.y);
        let m2: i64 = minor(b.z, c.x, b.x, c.z);
        let m3: i64 = minor(b.x, c.y, b.y, c.x);
        proof {
            lemma_mul_bound(self.x as int, m1 as int, 0x10_0000, 0x200_0000_0000);
            lemma_mul_bound(self.y as int, m2 as int, 0x10_0000, 0x200_0000_0000);
            lemma_mul_bound(self.z as int, m3 as int, 0x10_0000, 0x200_0000_0000);
        }
        (self.x as i64) * m1 + (self.y as i64) * m2 + (self.z as i64) * m3
    }

    /// Both vectors lie on one line through the origin.
    pub open spec fn parallel(self, other: Vec3) -> bool {
        self.cross(other) == (0int, 0int, 0int)
    }

    /// The scalar product, computed without overflow for any two grid vectors.
    pub fn dot_product(&self, other: &Vec3) -> (r: i128)
        ensures
            r == self.dot(*other),
    {
        let xx: i64 = mul_grid(self.x, other.x);
        let yy: i64 = mul_grid(self.y, other.y);
        let zz: i64 = mul_grid(self.z, other.z);
        xx as i128 + yy as i128 + zz as i128
    }
}

/// The direction `v` at the length at which its longest component is
/// [`COORD_MAX`], each component rounded down; zero where `v` is zero.
pub open spec fn rescaled(v: (int, int, int)) -> Vec3 {
    let m = longest(v);
    if m == 0 {
        Vec3 { x: 0, y: 0, z: 0 }
    } else {
        Vec3 {
            x: ((v.0 * COORD_MAX) / m) as i32,
            y: ((v.1 * COORD_MAX) / m) as i32,
            z: ((v.2 * COORD_MAX) / m) as i32,
        }
    }
}

fn rescale_axis(x: i128, m: i128) -> (r: i32)
    requires
        m > 0,
        -m <= x <= m,
        m <= 0x1_0000_0000_0000_0000_0000_0000,
    ensures
        r == (x * COORD_MAX) / (m as int),
        -COORD_MAX <= r <= COORD_MAX,
{
    proof {
        lemma_mul_bound(x as int, COORD_MAX as int, m as int, COORD_MAX as int);
        assert(-COORD_MAX * m <= x * COORD_MAX <= COORD_MAX * m) by (nonlinear_arith)
            requires
                -m <= x <= m,
        ;
        lemma_quotient_between(
            x * COORD_MAX,
            m as int,
            -COORD_MAX as int,
            COORD_MAX as int,
        );
        lemma_mul_bound(m as int, COORD_MAX as int, 0x1_0000_0000_0000_0000_0000_0000, 0x8_0000);
    }
    floor_div(x * (COORD_MAX as i128), m) as i32
}

/// Brings a direction to the length at which its longest component is
/// [`COORD_MAX`].
pub fn rescale(v: (i128, i128, i128)) -> (r: Vec3)
    requires
        -0x1_0000_0000_0000_0000_0000_0000 <= v.0 <= 0x1_0000_0000_0000_0000_0000_0000,
        -0x1_0000_0000_0000_0000_0000_0000 <= v.1 <= 0x1_0000_0000_0000_0000_0000_0000,
        -0x1_0000_0000_0000_0000_0000_0000 <= v.2 <= 0x1_0000_0000_0000_0000_0000_0000,
    ensures
        r == rescaled((v.0 as int, v.1 as int, v.2 as int)),
        r.in_range(),
{
    let a: i128 = abs_wide(v.0);
    let b: i128 = abs_wide(v.1);
    let c: i128 = abs_wide(v.2);
    let m: i128 = if a >= b && a >= c {
        a
    } else if b >= c {
        b
    } else {
        c
    };
    if m == 0 {
        Vec3 { x: 0, y: 0, z: 0 }
    } else {
        Vec3 { x: rescale_axis(v.0, m), y: rescale_axis(v.1, m), z: rescale_axis(v.2, m) }
    }
}

/// A fraction of two mathematical integers with a denominator that is not
/// negative. A zero denominator stands for infinity, of the numerator's sign.
pub struct Frac {
    pub num: int,
    pub den: int,
}

impl Frac {
    /// The fraction `n / d` for a divisor of either sign, written with a
    /// positive denominator.
    pub open spec fn of(n: int, d: int) -> Frac {
        if d < 0 {
            Frac { num: -n, den: -d }
        } else {
            Frac { num: n, den: d }
        }
    }

    pub open spec fn neg_infinity() -> Frac {
        Frac { num: -1, den: 0 }
    }

    pub open spec fn infinity() -> Frac {
        Frac { num: 1, den: 0 }
    }

    /// Strictly smaller, by cross-multiplication.
    pub open spec fn lt(self, other: Frac) -> bool {
        self.num * other.den < other.num * self.den
    }

    /// Smaller or equal, by cross-multiplication.
    pub open spec fn le(self, other: Frac) -> bool {
        self.num * other.den <= other.num * self.den
    }

    /// The same value, whatever the two representations.
    pub open spec fn same(self, other: Frac) -> bool {
        self.num * other.den == other.num * self.den
    }

    /// The larger of the two; the first where neither is larger.
    pub open spec fn max(self, other: Frac) -> Frac {
        if self.lt(other) {
            other
        } else {
            self
        }
    }

    /// The smaller of the two; the first where neither is smaller.
    pub open spec fn min(self, other: Frac) -> Frac {
        if other.lt(self) {
            other
        } else {
            self
        }
    }
}

/// A ray parameter: the exact fraction `num / den`, with `den >= 0`. A zero
/// denominator stands for infinity, of the numerator's sign.
#[derive(Clone, Copy, Debug)]
pub struct Ratio {
    pub num: i64,
    pub den: i64,
}

impl View for Ratio {
    type V = Frac;

    open spec fn view(&self) -> Frac {
        Frac { num: self.num as int, den: self.den as int }
    }
}

impl Ratio {
    pub fn new(num: i64, den: i64) -> (r: Ratio)
        ensures
            r.num == num,
            r.den == den,
    {
        Ratio { num, den }
    }

    /// Whether this parameter is strictly smaller than `other`.
    pub fn less_than(&self, other: &Ratio) -> (r: bool)
        ensures
            r == self@.lt(other@),
    {
        mul_wide(self.num, other.den) < mul_wide(other.num, self.den)
    }

    /// Whether this parameter is smaller than or equal to `other`.
    pub fn at_most(&self, other: &Ratio) -> (r: bool)
        ensures
            r == self@.le(other@),
    {
        mul_wide(self.num, other.den) <= mul_wide(other.num, self.den)
    }

    /// Whether both parameters stand for the same value.
    pub fn same_value(&self, other: &Ratio) -> (r: bool)
        ensures
            r == self@.same(other@),
    {
        mul_wide(self.num, other.den) == mul_wide(other.num, self.den)
    }
}

} // verus!
