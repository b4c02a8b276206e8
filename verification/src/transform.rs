//! Transforms between the frame of a node and the frame around it, in
//! fixed-point arithmetic with stated rounding.

use crate::arith::{floor_div, lemma_mul_bound, lemma_quotient_between, mul_grid};
use crate::vector::{COORD_MAX, rescale, rescaled, UNIT, Vec3};
use vstd::prelude::*;

verus! {

/// A three-by-three matrix of fixed-point numbers, held as its columns: it
/// maps `v` to `x * v.x + y * v.y + z * v.z`, divided by [`UNIT`].
#[derive(Debug, Clone, Copy, PartialEq, Eq, Structural)]
pub struct Matrix3 {
    pub x: Vec3,
    pub y: Vec3,
    pub z: Vec3,
}

impl Matrix3 {
    /// The matrix that maps every vector to itself.
    pub open spec fn identity() -> Matrix3 {
        Matrix3 {
            x: Vec3 { x: UNIT, y: 0, z: 0 },
            y: Vec3 { x: 0, y: UNIT, z: 0 },
            z: Vec3 { x: 0, y: 0, z: UNIT },
        }
    }

    /// The determinant of the matrix of whole numbers.
    pub open spec fn determinant(self) -> int {
        self.x.triple(self.y, self.z)
    }

    pub fn one() -> (m: Matrix3)
        ensures
            m == Matrix3::identity(),
    {
        Matrix3 {
            x: Vec3 { x: UNIT, y: 0, z: 0 },
            y: Vec3 { x: 0, y: UNIT, z: 0 },
            z: Vec3 { x: 0, y: 0, z: UNIT },
        }
    }
}

/// The scalar triple product `a . (b x c)` for a first vector of
/// mathematical integers.
pub open spec fn triple_of(a: (int, int, int), b: Vec3, c: Vec3) -> int {
    a.0 * (b.y * c.z - b.z * c.y) + a.1 * (b.z * c.x - b.x * c.z) + a.2 * (b.x * c.y - b.y * c.x)
}

/// The two-by-two determinant `a * b - c * d` of any four grid numbers.
fn wide_minor(a: i32, b: i32, c: i32, d: i32) -> (r: i128)
    ensures
        r == a * b - c * d,
        -0x8000_0000_0000_0000 <= r <= 0x8000_0000_0000_0000,
{
    proof {
        lemma_mul_bound(a as int, b as int, 0x8000_0000, 0x8000_0000);
        lemma_mul_bound(c as int, d as int, 0x8000_0000, 0x8000_0000);
    }
    (a as i128) * (b as i128) - (c as i128) * (d as i128)
}

/// The scalar triple product `a . (b x c)` of a vector of sums or
/// differences of grid numbers with two grid vectors.
fn wide_triple(a: (i64, i64, i64), b: &Vec3, c: &Vec3) -> (r: i128)
    requires
        -0x1_0000_0000 <= a.0 <= 0x1_0000_0000,
        -0x1_0000_0000 <= a.1 <= 0x1_0000_0000,
        -0x1_0000_0000 <= a.2 <= 0x1_0000_0000,
    ensures
        r == triple_of((a.0 as int, a.1 as int, a.2 as int), *b, *c),
        -0x1_8000_0000_0000_0000_0000_0000 <= r <= 0x1_8000_0000_0000_0000_0000_0000,
{
    let m1: i128 = wide_minor(b.y, c.z, b.z, c.y);
    let m2: i128 = wide_minor(b.z, c.x, b.x, c.z);
    let m3: i128 = wide_minor(b.x, c.y, b.y, c.x);
    proof {
        lemma_mul_bound(a.0 as int, m1 as int, 0x1_0000_0000, 0x8000_0000_0000_0000);
        lemma_mul_bound(a.1 as int, m2 as int, 0x1_0000_0000, 0x8000_0000_0000_0000);
        lemma_mul_bound(a.2 as int, m3 as int, 0x1_0000_0000, 0x8000_0000_0000_0000);
    }
    (a.0 as i128) * m1 + (a.1 as i128) * m2 + (a.2 as i128) * m3
}

/// The grid vector of three numbers, where each of them fits the grid.
pub open spec fn grid_vector(x: int, y: int, z: int) -> Option<Vec3> {
    if i32::MIN <= x <= i32::MAX && i32::MIN <= y <= i32::MAX && i32::MIN <= z <= i32::MAX {
        Some(Vec3 { x: x as i32, y: y as i32, z: z as i32 })
    } else {
        None
    }
}

/// A value kept within the range of coordinates.
pub open spec fn kept_in_range(x: int) -> int {
    if x < -COORD_MAX {
        -COORD_MAX as int
    } else if x > COORD_MAX {
        COORD_MAX as int
    } else {
        x
    }
}

pub fn keep_in_range(x: i128) -> (r: i32)
    ensures
        r == kept_in_range(x as int),
        -COORD_MAX <= r <= COORD_MAX,
{
    if x < -(COORD_MAX as i128) {
        -COORD_MAX
    } else if x > COORD_MAX as i128 {
        COORD_MAX
    } else {
        x as i32
    }
}

/// The largest magnitude of a coordinate that a point can have in an inner
/// frame.
pub const LOCAL_MAX: i128 = 0x1800_0000_0000_0000_0000_0000_0000;

/// How a node, or a texture, lies in the frame around it: a matrix and then
/// a shift take its own frame to that frame.
#[derive(Debug, Clone, Copy, PartialEq, Eq, Structural)]
pub struct Transform {
    pub transform: Matrix3,
    pub translate: Vec3,
}

impl Transform {
    /// The matrix can be inverted.
    pub open spec fn invertible(&self) -> bool {
        self.transform.determinant() != 0
    }

    /// One coordinate of a point of the outer frame in the inner frame, by
    /// Cramer's rule: [`UNIT`] times the determinant with `w`, the point less
    /// the shift, in place of one column, over the determinant, rounded down.
    pub open spec fn local_coordinate(&self, numerator: int) -> int {
        let det = self.transform.determinant();
        if det > 0 {
            (UNIT * numerator) / det
        } else {
            (-(UNIT * numerator)) / (-det)
        }
    }

    /// The point of the outer frame in the inner frame, whatever its size.
    pub open spec fn local_exact(&self, vec: Vec3) -> (int, int, int) {
        let m = self.transform;
        let w = (vec.x - self.translate.x, vec.y - self.translate.y, vec.z - self.translate.z);
        (
            self.local_coordinate(triple_of(w, m.y, m.z)),
            self.local_coordinate(triple_of(w, m.z, m.x)),
            self.local_coordinate(triple_of(w, m.x, m.y)),
        )
    }

    /// The point of the outer frame in the inner frame, where that is a
    /// grid vector.
    pub open spec fn local(&self, vec: Vec3) -> Option<Vec3> {
        let exact = self.local_exact(vec);
        grid_vector(exact.0, exact.1, exact.2)
    }

    /// One coordinate of a point of the inner frame in the outer frame,
    /// wherever it lies.
    pub open spec fn outer_exact(row: (int, int, int), shift: int, vec: Vec3) -> int {
        (row.0 * vec.x + row.1 * vec.y + row.2 * vec.z) / (UNIT as int) + shift
    }

    /// One coordinate of a point of the inner frame in the outer frame,
    /// kept within the range of coordinates.
    pub open spec fn outer_coordinate(row: (int, int, int), shift: int, vec: Vec3) -> int {
        kept_in_range(Self::outer_exact(row, shift, vec))
    }

    /// The point of the inner frame lies within the range of coordinates of
    /// the outer frame: nothing is cut off when it is taken there.
    pub open spec fn outer_fits(&self, vec: Vec3) -> bool {
        let m = self.transform;
        &&& -COORD_MAX <= Self::outer_exact(
            (m.x.x as int, m.y.x as int, m.z.x as int),
            self.translate.x as int,
            vec,
        ) <= COORD_MAX
        &&& -COORD_MAX <= Self::outer_exact(
            (m.x.y as int, m.y.y as int, m.z.y as int),
            self.translate.y as int,
            vec,
        ) <= COORD_MAX
        &&& -COORD_MAX <= Self::outer_exact(
            (m.x.z as int, m.y.z as int, m.z.z as int),
            self.translate.z as int,
            vec,
        ) <= COORD_MAX
    }

    /// The point of the inner frame in the outer frame: the matrix applied
    /// to it, rounded down to the grid, and the shift added.
    pub open spec fn outer(&self, vec: Vec3) -> Vec3 {
        let m = self.transform;
        Vec3 {
            x: Self::outer_coordinate(
                (m.x.x as int, m.y.x as int, m.z.x as int),
                self.translate.x as int,
                vec,
            ) as i32,
            y: Self::outer_coordinate(
                (m.x.y as int, m.y.y as int, m.z.y as int),
                self.translate.y as int,
                vec,
            ) as i32,
            z: Self::outer_coordinate(
                (m.x.z as int, m.y.z as int, m.z.z as int),
                self.translate.z as int,
                vec,
            ) as i32,
        }
    }

    /// The direction that the matrix, inverted and transposed, gives a
    /// normal of the inner frame, before any division: the sum of the vector
    /// products of the columns, weighted by the normal, turned round where
    /// the determinant is negative.
    pub open spec fn outer_direction(&self, normal: Vec3) -> (int, int, int) {
        let m = self.transform;
        let yz = m.y.cross(m.z);
        let zx = m.z.cross(m.x);
        let xy = m.x.cross(m.y);
        let sign: int = if m.determinant() < 0 {
            -1
        } else {
            1
        };
        (
            sign * (normal.x * yz.0 + normal.y * zx.0 + normal.z * xy.0),
            sign * (normal.x * yz.1 + normal.y * zx.1 + normal.z * xy.1),
            sign * (normal.x * yz.2 + normal.y * zx.2 + normal.z * xy.2),
        )
    }

    /// The normal of the inner frame in the outer frame: its direction,
    /// brought to the length at which its longest component is
    /// [`COORD_MAX`], or zero where the direction is.
    pub open spec fn outer_normal(&self, normal: Vec3) -> Vec3 {
        rescaled(self.outer_direction(normal))
    }

    /// The transform that leaves every point where it is.
    pub fn default() -> (t: Transform)
        ensures
            t.transform == Matrix3::identity(),
            t.translate == (Vec3 { x: 0, y: 0, z: 0 }),
            t.invertible(),
    {
        assert(Matrix3::identity().determinant() == UNIT * (UNIT * UNIT)) by (nonlinear_arith)
            requires
                Matrix3::identity().determinant() == UNIT * (UNIT * UNIT - 0 * 0) + 0 * (0 * 0 - 0
                    * UNIT) + 0 * (0 * 0 - UNIT * 0),
        ;
        Transform { transform: Matrix3::one(), translate: Vec3 { x: 0, y: 0, z: 0 } }
    }

    fn local_axis(numerator: i128, det: i128) -> (r: i128)
        requires
            det != 0,
            -0x1_8000_0000_0000_0000_0000_0000 <= numerator <= 0x1_8000_0000_0000_0000_0000_0000,
            -0x1_8000_0000_0000_0000_0000_0000 <= det <= 0x1_8000_0000_0000_0000_0000_0000,
        ensures
            r == (if det > 0 {
                (UNIT * numerator) / (det as int)
            } else {
                (-(UNIT * numerator)) / (-det)
            }),
            -LOCAL_MAX <= r <= LOCAL_MAX,
    {
        let scaled: i128 = (UNIT as i128) * numerator;
        proof {
            let divisor: int = if det > 0 {
                det as int
            } else {
                -det
            };
            let dividend: int = if det > 0 {
                scaled as int
            } else {
                -scaled
            };
            assert(-LOCAL_MAX * divisor <= dividend <= LOCAL_MAX * divisor) by (nonlinear_arith)
                requires
                    divisor >= 1,
                    -LOCAL_MAX <= dividend <= LOCAL_MAX,
                    LOCAL_MAX > 0,
            ;
            lemma_quotient_between(dividend, divisor, -LOCAL_MAX as int, LOCAL_MAX as int);
        }
        if det > 0 {
            floor_div(scaled, det)
        } else {
            floor_div(-scaled, -det)
        }
    }

    /// Whether the matrix can be inverted.
    pub fn is_invertible(&self) -> (r: bool)
        ensures
            r == self.invertible(),
    {
        let m = &self.transform;
        wide_triple((m.x.x as i64, m.x.y as i64, m.x.z as i64), &m.y, &m.z) != 0
    }

    /// Takes a point of the outer frame to the inner frame, whatever the
    /// size of the result.
    pub fn to_local_exact(&self, vec: Vec3) -> (r: (i128, i128, i128))
        requires
            self.invertible(),
        ensures
            r.0 == self.local_exact(vec).0,
            r.1 == self.local_exact(vec).1,
            r.2 == self.local_exact(vec).2,
            -LOCAL_MAX <= r.0 <= LOCAL_MAX,
            -LOCAL_MAX <= r.1 <= LOCAL_MAX,
            -LOCAL_MAX <= r.2 <= LOCAL_MAX,
    {
        let m = &self.transform;
        let det: i128 = wide_triple((m.x.x as i64, m.x.y as i64, m.x.z as i64), &m.y, &m.z);
        let w: (i64, i64, i64) = (
            vec.x as i64 - self.translate.x as i64,
            vec.y as i64 - self.translate.y as i64,
            vec.z as i64 - self.translate.z as i64,
        );
        (
            Self::local_axis(wide_triple(w, &m.y, &m.z), det),
            Self::local_axis(wide_triple(w, &m.z, &m.x), det),
            Self::local_axis(wide_triple(w, &m.x, &m.y), det),
        )
    }

    /// Takes a point of the outer frame to the inner frame. There is no
    /// result where the point in the inner frame lies beyond the grid.
    pub fn to_local_space(&self, vec: Vec3) -> (r: Option<Vec3>)
        requires
            self.invertible(),
        ensures
            r == self.local(vec),
    {
        let (x, y, z) = self.to_local_exact(vec);
        if x < i32::MIN as i128 || x > i32::MAX as i128 || y < i32::MIN as i128 || y
            > i32::MAX as i128 || z < i32::MIN as i128 || z > i32::MAX as i128 {
            None
        } else {
            Some(Vec3 { x: x as i32, y: y as i32, z: z as i32 })
        }
    }

    fn direction_axis(normal: &Vec3, yz: i128, zx: i128, xy: i128, sign: i128) -> (r: i128)
        requires
            sign == 1 || sign == -1,
            -0x8000_0000_0000_0000 <= yz <= 0x8000_0000_0000_0000,
            -0x8000_0000_0000_0000 <= zx <= 0x8000_0000_0000_0000,
            -0x8000_0000_0000_0000 <= xy <= 0x8000_0000_0000_0000,
        ensures
            r == sign * (normal.x * yz + normal.y * zx + normal.z * xy),
            -0x1_0000_0000_0000_0000_0000_0000 <= r <= 0x1_0000_0000_0000_0000_0000_0000,
    {
        proof {
            lemma_mul_bound(normal.x as int, yz as int, 0x8000_0000, 0x8000_0000_0000_0000);
            lemma_mul_bound(normal.y as int, zx as int, 0x8000_0000, 0x8000_0000_0000_0000);
            lemma_mul_bound(normal.z as int, xy as int, 0x8000_0000, 0x8000_0000_0000_0000);
        }
        let sum: i128 = (normal.x as i128) * yz + (normal.y as i128) * zx + (normal.z as i128)
            * xy;
        if sign == 1 {
            sum
        } else {
            -sum
        }
    }

    /// Takes a normal of the inner frame to the outer frame, by the matrix
    /// inverted and transposed, and brings it to a length within range.
    pub fn normal_from_local_space(&self, normal: Vec3) -> (r: Vec3)
        ensures
            r == self.outer_normal(normal),
            r.in_range(),
    {
        let m = &self.transform;
        let det: i128 = wide_triple((m.x.x as i64, m.x.y as i64, m.x.z as i64), &m.y, &m.z);
        let sign: i128 = if det < 0 {
            -1
        } else {
            1
        };
        let x = Self::direction_axis(
            &normal,
            wide_minor(m.y.y, m.z.z, m.y.z, m.z.y),
            wide_minor(m.z.y, m.x.z, m.z.z, m.x.y),
            wide_minor(m.x.y, m.y.z, m.x.z, m.y.y),
            sign,
        );
        let y = Self::direction_axis(
            &normal,
            wide_minor(m.y.z, m.z.x, m.y.x, m.z.z),
            wide_minor(m.z.z, m.x.x, m.z.x, m.x.z),
            wide_minor(m.x.z, m.y.x, m.x.x, m.y.z),
            sign,
        );
        let z = Self::direction_axis(
            &normal,
            wide_minor(m.y.x, m.z.y, m.y.y, m.z.x),
            wide_minor(m.z.x, m.x.y, m.z.y, m.x.x),
            wide_minor(m.x.x, m.y.y, m.x.y, m.y.x),
            sign,
        );
        rescale((x, y, z))
    }

    fn outer_axis(a: i32, b: i32, c: i32, shift: i32, vec: &Vec3) -> (r: (i32, bool))
        ensures
            r.0 == Self::outer_coordinate((a as int, b as int, c as int), shift as int, *vec),
            -COORD_MAX <= r.0 <= COORD_MAX,
            r.1 == (-COORD_MAX <= Self::outer_exact(
                (a as int, b as int, c as int),
                shift as int,
                *vec,
            ) <= COORD_MAX),
    {
        let sum: i128 = mul_grid(a, vec.x) as i128 + mul_grid(b, vec.y) as i128 + mul_grid(
            c,
            vec.z,
        ) as i128;
        let q: i128 = floor_div(sum, UNIT as i128);
        proof {
            lemma_quotient_between(
                sum as int,
                UNIT as int,
                -0xc000_0000_0000_0000,
                0xc000_0000_0000_0000,
            );
        }
        let exact: i128 = q + shift as i128;
        (keep_in_range(exact), -(COORD_MAX as i128) <= exact && exact <= COORD_MAX as i128)
    }

    /// Takes a point of the inner frame to the outer frame, and says
    /// whether it lies within the range of coordinates there; where it does
    /// not, the point is the nearest one within the range.
    pub fn from_local_checked(&self, vec: Vec3) -> (r: (Vec3, bool))
        ensures
            r.0 == self.outer(vec),
            r.0.in_range(),
            r.1 == self.outer_fits(vec),
    {
        let m = &self.transform;
        let (x, fits_x) = Self::outer_axis(m.x.x, m.y.x, m.z.x, self.translate.x, &vec);
        let (y, fits_y) = Self::outer_axis(m.x.y, m.y.y, m.z.y, self.translate.y, &vec);
        let (z, fits_z) = Self::outer_axis(m.x.z, m.y.z, m.z.z, self.translate.z, &vec);
        (Vec3 { x, y, z }, fits_x && fits_y && fits_z)
    }

    /// Takes a point of the inner frame to the outer frame, and keeps it
    /// within the range of coordinates: a point beyond the range comes out
    /// as the nearest point within it. [`Transform::from_local_checked`]
    /// says whether that happened.
    pub fn from_local_space(&self, vec: Vec3) -> (r: Vec3)
        ensures
            r == self.outer(vec),
            r.in_range(),
    {
        self.from_local_checked(vec).0
    }
}

} // verus!
