//! The shapes a ray can hit: the unit sphere, the unit square and triangle
//! meshes, each in its own local frame.

use crate::arith::{
    ceil_sqrt, floor_div, floor_sqrt, isqrt, isqrt_up, lemma_mul_bound, lemma_quotient_between,
    lemma_square_order,
};
use crate::bounding_box::{Bounded, BoundingBox};
use crate::mesh::Mesh;
use crate::scene::{hit_view, HitInfo, HitView, Side};
use crate::vector::{COORD_MAX, Frac, Ratio, UNIT, Vec3};
use vstd::prelude::*;

verus! {

/// A shape in its local frame: the sphere of radius one about the origin,
/// the square from -1 to 1 in the plane `z = 0`, or a triangle mesh.
#[derive(Debug)]
pub enum Geometry {
    Sphere,
    Plane,
    Mesh(Mesh),
}

/// A value kept between two bounds.
pub open spec fn clamped(x: int, lo: int, hi: int) -> int {
    if x < lo {
        lo
    } else if x > hi {
        hi
    } else {
        x
    }
}

/// One coordinate of the point `p + (num / den) * d`, rounded down to the
/// grid and kept within the box of the unit sphere.
pub open spec fn sphere_coordinate(p: int, d: int, num: int, den: int) -> int {
    clamped((den * p + num * d) / den, -UNIT as int, UNIT as int)
}

/// The hit on the unit sphere at the parameter `num / den`. The normal of
/// the unit sphere at a point is the point itself.
pub open spec fn sphere_point(pos: Vec3, dir: Vec3, num: int, den: int, side: Side) -> HitView {
    let point = Vec3 {
        x: sphere_coordinate(pos.x as int, dir.x as int, num, den) as i32,
        y: sphere_coordinate(pos.y as int, dir.y as int, num, den) as i32,
        z: sphere_coordinate(pos.z as int, dir.z as int, num, den) as i32,
    };
    HitView {
        z: Frac { num, den },
        pos: point,
        uv: Vec3 { x: 0, y: 0, z: 0 },
        normal: point,
        side,
    }
}

/// The discriminant, divided by four, of the equation
/// `|pos + t dir|^2 = 1` in `t`.
pub open spec fn sphere_discriminant(pos: Vec3, dir: Vec3) -> int {
    pos.dot(dir) * pos.dot(dir) - dir.norm2() * (pos.norm2() - UNIT * UNIT)
}

/// What the ray from `pos` along `dir` hits of the unit sphere. With the
/// roots `(-pos.dir -+ sqrt(disc)) / |dir|^2`: nothing where the discriminant
/// is not positive; where both roots are positive, the front at the smaller
/// root; where only the larger root is positive, the back at that root; else
/// nothing. The numerator of the parameter is rounded up to a whole number.
pub open spec fn sphere_hit(pos: Vec3, dir: Vec3) -> Option<HitView> {
    let pd = pos.dot(dir);
    let dd = dir.norm2();
    let c = pos.norm2() - UNIT * UNIT;
    let disc = sphere_discriminant(pos, dir);
    if dd == 0 || disc <= 0 {
        None
    } else if pd < 0 && c > 0 {
        Some(sphere_point(pos, dir, -pd - floor_sqrt(disc), dd, Side::Front))
    } else if pd < 0 || c < 0 {
        Some(sphere_point(pos, dir, -pd + ceil_sqrt(disc), dd, Side::Back))
    } else {
        None
    }
}

/// One coordinate of the point `p + (num / den) * d`, rounded down to the
/// grid.
pub open spec fn plane_coordinate(p: int, d: int, num: int, den: int) -> int {
    (den * p + num * d) / den
}

/// What the ray from `pos` along `dir` hits of the unit square in the plane
/// `z = 0`: nothing unless it runs towards the plane and meets it strictly
/// inside the square; else the point where it does, on the front where it
/// comes from the side of positive `z`.
pub open spec fn plane_hit(pos: Vec3, dir: Vec3) -> Option<HitView> {
    let num = if pos.z < 0 {
        -pos.z
    } else {
        pos.z as int
    };
    let den = if dir.z < 0 {
        -dir.z
    } else {
        dir.z as int
    };
    let x = den * pos.x + num * dir.x;
    let y = den * pos.y + num * dir.y;
    if !((pos.z > 0 && dir.z < 0) || (pos.z < 0 && dir.z > 0)) {
        None
    } else if -UNIT * den < x < UNIT * den && -UNIT * den < y < UNIT * den {
        Some(
            HitView {
                z: Frac { num, den },
                pos: Vec3 { x: (x / den) as i32, y: (y / den) as i32, z: 0 },
                uv: Vec3 { x: 0, y: 0, z: 0 },
                normal: Vec3 { x: 0, y: 0, z: UNIT },
                side: if pos.z > 0 {
                    Side::Front
                } else {
                    Side::Back
                },
            },
        )
    } else {
        None
    }
}

/// The bounds on scalar products of vectors in range.
pub proof fn lemma_dot_bound(a: Vec3, b: Vec3)
    requires
        a.in_range(),
        b.in_range(),
    ensures
        -0xc0_0000_0000 <= a.dot(b) <= 0xc0_0000_0000,
{
    lemma_mul_bound(a.x as int, b.x as int, COORD_MAX as int, COORD_MAX as int);
    lemma_mul_bound(a.y as int, b.y as int, COORD_MAX as int, COORD_MAX as int);
    lemma_mul_bound(a.z as int, b.z as int, COORD_MAX as int, COORD_MAX as int);
}

fn sphere_axis(p: i32, d: i32, num: i64, den: i64) -> (r: i32)
    requires
        -COORD_MAX <= p <= COORD_MAX,
        -COORD_MAX <= d <= COORD_MAX,
        0 < den <= 0xc0_0000_0000,
        -0x1_0000_0000_0000 <= num <= 0x1_0000_0000_0000,
    ensures
        r == sphere_coordinate(p as int, d as int, num as int, den as int),
        -UNIT <= r <= UNIT,
{
    proof {
        lemma_mul_bound(den as int, p as int, 0xc0_0000_0000, COORD_MAX as int);
        lemma_mul_bound(num as int, d as int, 0x1_0000_0000_0000, COORD_MAX as int);
    }
    let q: i128 = floor_div((den as i128) * (p as i128) + (num as i128) * (d as i128), den as i128);
    if q < -(UNIT as i128) {
        -UNIT
    } else if q > UNIT as i128 {
        UNIT
    } else {
        q as i32
    }
}

fn intersect_sphere(pos: Vec3, dir: Vec3) -> (r: Option<HitInfo>)
    requires
        pos.in_range(),
        dir.in_range(),
    ensures
        hit_view(r) == sphere_hit(pos, dir),
{
    proof {
        lemma_dot_bound(pos, dir);
        lemma_dot_bound(dir, dir);
        lemma_dot_bound(pos, pos);
    }
    let pd: i128 = pos.dot_product(&dir);
    let dd: i128 = dir.dot_product(&dir);
    let c: i128 = pos.dot_product(&pos) - (UNIT as i128) * (UNIT as i128);
    proof {
        lemma_mul_bound(pd as int, pd as int, 0xc0_0000_0000, 0xc0_0000_0000);
        lemma_mul_bound(dd as int, c as int, 0xc0_0000_0000, 0xc1_0000_0000);
    }
    let disc: i128 = pd * pd - dd * c;
    if dd == 0 || disc <= 0 {
        return None;
    }
    let root: i64 = isqrt(disc);
    proof {
        assert(dir.norm2() >= 0) by (nonlinear_arith)
            requires
                dir.norm2() == dir.x * dir.x + dir.y * dir.y + dir.z * dir.z,
        ;
        assert(0x200_0000_0001int * 0x200_0000_0001int > 0xc0_0000_0000int * 0xc0_0000_0000int
            + 0xc0_0000_0000int * 0xc1_0000_0000int) by (nonlinear_arith);
        lemma_square_order(root as int, 0x200_0000_0000);
    }
    let (num, side): (i64, Side) = if pd < 0 && c > 0 {
        ((-pd - root as i128) as i64, Side::Front)
    } else if pd < 0 || c < 0 {
        ((-pd + isqrt_up(disc) as i128) as i64, Side::Back)
    } else {
        return None;
    };
    let den: i64 = dd as i64;
    let point = Vec3 {
        x: sphere_axis(pos.x, dir.x, num, den),
        y: sphere_axis(pos.y, dir.y, num, den),
        z: sphere_axis(pos.z, dir.z, num, den),
    };
    Some(
        HitInfo {
            z: Ratio { num, den },
            pos: point,
            uv: Vec3 { x: 0, y: 0, z: 0 },
            normal: point,
            side,
        },
    )
}

fn plane_axis(p: i32, d: i32, num: i64, den: i64) -> (r: Option<i32>)
    requires
        0 < den <= 0x8000_0000,
        0 <= num <= 0x8000_0000,
    ensures
        match r {
            Some(q) => -UNIT * den < den * p + num * d < UNIT * den && q == plane_coordinate(
                p as int,
                d as int,
                num as int,
                den as int,
            ),
            None => !(-UNIT * den < den * p + num * d < UNIT * den),
        },
{
    proof {
        lemma_mul_bound(den as int, p as int, 0x8000_0000, 0x8000_0000);
        lemma_mul_bound(num as int, d as int, 0x8000_0000, 0x8000_0000);
    }
    let x: i128 = (den as i128) * (p as i128) + (num as i128) * (d as i128);
    let edge: i128 = (UNIT as i128) * (den as i128);
    if -edge < x && x < edge {
        let q: i128 = floor_div(x, den as i128);
        proof {
            lemma_quotient_between(x as int, den as int, -UNIT as int, UNIT as int);
        }
        Some(q as i32)
    } else {
        None
    }
}

fn intersect_plane(pos: Vec3, dir: Vec3) -> (r: Option<HitInfo>)
    ensures
        hit_view(r) == plane_hit(pos, dir),
{
    if !((pos.z > 0 && dir.z < 0) || (pos.z < 0 && dir.z > 0)) {
        return None;
    }
    let num: i64 = if pos.z < 0 {
        -(pos.z as i64)
    } else {
        pos.z as i64
    };
    let den: i64 = if dir.z < 0 {
        -(dir.z as i64)
    } else {
        dir.z as i64
    };
    let x = match plane_axis(pos.x, dir.x, num, den) {
        Some(x) => x,
        None => {
            return None;
        },
    };
    let y = match plane_axis(pos.y, dir.y, num, den) {
        Some(y) => y,
        None => {
            return None;
        },
    };
    Some(
        HitInfo {
            z: Ratio { num, den },
            pos: Vec3 { x, y, z: 0 },
            uv: Vec3 { x: 0, y: 0, z: 0 },
            normal: Vec3 { x: 0, y: 0, z: UNIT },
            side: if pos.z > 0 {
                Side::Front
            } else {
                Side::Back
            },
        },
    )
}

impl Geometry {
    /// A mesh is consistent; the other shapes always are.
    pub open spec fn wf(&self) -> bool {
        match self {
            Geometry::Mesh(mesh) => mesh.wf(),
            _ => true,
        }
    }

    /// The box around the shape.
    pub open spec fn bounds(&self) -> BoundingBox {
        match self {
            Geometry::Sphere => BoundingBox {
                p1: Vec3 { x: (-UNIT) as i32, y: (-UNIT) as i32, z: (-UNIT) as i32 },
                p2: Vec3 { x: UNIT, y: UNIT, z: UNIT },
            },
            Geometry::Plane => BoundingBox {
                p1: Vec3 { x: (-UNIT) as i32, y: (-UNIT) as i32, z: 0 },
                p2: Vec3 { x: UNIT, y: UNIT, z: 0 },
            },
            Geometry::Mesh(mesh) => mesh.bounding_box,
        }
    }

    /// What the ray from `pos` along `dir` hits of the shape: nothing where
    /// the line misses the box around it, else what it hits of the sphere,
    /// the square or the mesh.
    pub open spec fn hit(&self, pos: Vec3, dir: Vec3) -> Option<HitView> {
        if !self.bounds().hit_by(pos, dir) {
            None
        } else {
            match self {
                Geometry::Sphere => sphere_hit(pos, dir),
                Geometry::Plane => plane_hit(pos, dir),
                Geometry::Mesh(mesh) => mesh.hit(pos, dir),
            }
        }
    }

    /// Whether the shape can be used.
    pub fn is_well_formed(&self) -> (r: bool)
        ensures
            r == self.wf(),
    {
        match self {
            Geometry::Mesh(mesh) => mesh.is_well_formed(),
            _ => true,
        }
    }

    /// Finds what the ray from `pos` along `dir` hits of the shape.
    pub fn intersect(&self, pos: Vec3, dir: Vec3) -> (r: Option<HitInfo>)
        requires
            self.wf(),
            pos.in_range(),
            dir.in_range(),
        ensures
            hit_view(r) == self.hit(pos, dir),
    {
        if self.bounding_box().intersect(pos, dir).is_none() {
            return None;
        }
        match self {
            Geometry::Sphere => intersect_sphere(pos, dir),
            Geometry::Plane => intersect_plane(pos, dir),
            Geometry::Mesh(mesh) => mesh.intersect(pos, dir),
        }
    }
}

impl Bounded for Geometry {
    fn bounding_box(&self) -> (b: BoundingBox)
        ensures
            b == self.bounds(),
    {
        match self {
            Geometry::Sphere => BoundingBox::new(-UNIT, -UNIT, -UNIT, UNIT, UNIT, UNIT),
            Geometry::Plane => BoundingBox::new(-UNIT, -UNIT, 0, UNIT, UNIT, 0),
            Geometry::Mesh(mesh) => mesh.bounding_box,
        }
    }
}

} // verus!
