//! What holds of the intersection with the shapes.

use crate::arith::lemma_floor_sqrt_unique;
use crate::bounding_box::BoundingBox;
use crate::box_laws::{
    in_slab, lemma_hit_monotone, lemma_le_transitive, lemma_line_point_hits,
    lemma_origin_inside_hits,
};
use crate::bvh::{all_items, traversal, tree};
use crate::bvh_laws::lemma_build_traversal;
use crate::cramer::lemma_cramer;
use crate::geometry::{Geometry, sphere_discriminant};
use crate::mesh::{lemma_blend_between, Mesh, triangle_box, triangle_boxes, triangle_hit};
use crate::scene::{hit_view, HitInfo, nearer, Side};
use crate::vector::{Frac, UNIT, Vec3};
use vstd::prelude::*;

verus! {

/// Two searches with one ray in one shape find the same.
pub proof fn lemma_intersect_repeatable(
    shape: Geometry,
    pos: Vec3,
    dir: Vec3,
    first: Option<HitInfo>,
    second: Option<HitInfo>,
)
    requires
        hit_view(first) == shape.hit(pos, dir),
        hit_view(second) == shape.hit(pos, dir),
    ensures
        first == second,
{
    if first is Some {
        let a = first.unwrap();
        let b = second.unwrap();
        assert(a@ == b@);
        assert(a.z@ == b.z@);
        assert(a.z.num == b.z.num && a.z.den == b.z.den);
        assert(a.z == b.z);
        assert(a == b);
    }
}

/// The square of a product is the product of the squares.
pub proof fn lemma_square_of_product(a: int, b: int)
    by (nonlinear_arith)
    ensures
        (a * b) * (a * b) == (a * a) * (b * b),
{
}

/// The square of a two-by-two determinant, in squares and products of its
/// entries.
pub proof fn lemma_square_of_minor(a: int, b: int, c: int, d: int)
    ensures
        (a * d - b * c) * (a * d - b * c) == (a * a) * (d * d) - 2 * ((a * c) * (b * d)) + (b * b)
            * (c * c),
{
    let p = a * d;
    let q = b * c;
    assert((p - q) * (p - q) == p * p - 2 * (p * q) + q * q) by (nonlinear_arith);
    lemma_square_of_product(a, d);
    lemma_square_of_product(b, c);
    lemma_swap_factors(a, d, b, c);
}

/// A product of two products, with the inner factors changed over.
pub proof fn lemma_swap_factors(a: int, b: int, c: int, d: int)
    ensures
        (a * b) * (c * d) == (a * d) * (c * b),
{
    let ab = a * b;
    let cd = c * d;
    assert(ab * cd == a * (b * (c * d))) by (nonlinear_arith)
        requires
            ab == a * b,
            cd == c * d,
    ;
    assert(b * (c * d) == d * (c * b)) by (nonlinear_arith);
    assert(a * (d * (c * b)) == (a * d) * (c * b)) by (nonlinear_arith);
}

/// The product of two sums of three, term by term.
pub proof fn lemma_product_of_sums(a1: int, a2: int, a3: int, b1: int, b2: int, b3: int)
    by (nonlinear_arith)
    ensures
        (a1 + a2 + a3) * (b1 + b2 + b3) == a1 * b1 + a1 * b2 + a1 * b3 + a2 * b1 + a2 * b2 + a2
            * b3 + a3 * b1 + a3 * b2 + a3 * b3,
{
}

/// The square of a sum of three, term by term.
pub proof fn lemma_square_of_sum(p: int, q: int, r: int)
    by (nonlinear_arith)
    ensures
        (p + q + r) * (p + q + r) == p * p + q * q + r * r + 2 * (p * q) + 2 * (p * r) + 2 * (q
            * r),
{
}

/// The squared lengths of two vectors multiply to the square of their
/// scalar product and the squared length of their vector product.
pub proof fn lemma_lagrange(a: Vec3, b: Vec3)
    ensures
        a.norm2() * b.norm2() == a.dot(b) * a.dot(b) + a.cross(b).0 * a.cross(b).0 + a.cross(b).1
            * a.cross(b).1 + a.cross(b).2 * a.cross(b).2,
{
    let (x1, y1, z1) = (a.x as int, a.y as int, a.z as int);
    let (x2, y2, z2) = (b.x as int, b.y as int, b.z as int);
    lemma_product_of_sums(x1 * x1, y1 * y1, z1 * z1, x2 * x2, y2 * y2, z2 * z2);
    lemma_square_of_sum(x1 * x2, y1 * y2, z1 * z2);
    lemma_square_of_product(x1, x2);
    lemma_square_of_product(y1, y2);
    lemma_square_of_product(z1, z2);
    lemma_square_of_minor(y1, z1, y2, z2);
    lemma_square_of_minor(z1, x1, z2, x2);
    lemma_square_of_minor(x1, y1, x2, y2);
    // the mixed products, each in the order in which the squares hold it
    assert((y1 * y2) * (z1 * z2) == (z1 * z2) * (y1 * y2)) by (nonlinear_arith);
    assert((z1 * z2) * (x1 * x2) == (x1 * x2) * (z1 * z2)) by (nonlinear_arith);
}

/// A vector with a squared length of zero is zero, and only such a vector
/// has a squared length that is not positive.
pub proof fn lemma_norm2(a: Vec3)
    ensures
        a.norm2() >= 0,
        a.norm2() == 0 <==> a.is_zero(),
        a.norm2() >= a.x * a.x,
        a.norm2() >= a.y * a.y,
        a.norm2() >= a.z * a.z,
{
    let (x, y, z) = (a.x as int, a.y as int, a.z as int);
    assert(x * x >= 0 && y * y >= 0 && z * z >= 0 && (x * x == 0 <==> x == 0) && (y * y == 0 <==> y
        == 0) && (z * z == 0 <==> z == 0)) by (nonlinear_arith);
}

/// A coordinate whose square is below the square of a bound is within the
/// bound.
pub proof fn lemma_square_within(x: int, bound: int)
    by (nonlinear_arith)
    requires
        bound > 0,
        x * x < bound * bound,
    ensures
        -bound < x < bound,
{
}

/// A ray that starts inside the unit sphere hits it from the back,
/// whatever its direction.
pub proof fn lemma_sphere_from_inside(pos: Vec3, dir: Vec3)
    requires
        pos.norm2() < UNIT * UNIT,
        !dir.is_zero(),
    ensures
        Geometry::Sphere.hit(pos, dir) is Some,
        Geometry::Sphere.hit(pos, dir)->Some_0.side == Side::Back,
{
    lemma_norm2(dir);
    lemma_norm2(pos);
    let pd = pos.dot(dir);
    let dd = dir.norm2();
    let c = pos.norm2() - UNIT * UNIT;
    assert(pd * pd - dd * c > 0) by (nonlinear_arith)
        requires
            dd > 0,
            c < 0,
    ;
    lemma_square_within(pos.x as int, UNIT as int);
    lemma_square_within(pos.y as int, UNIT as int);
    lemma_square_within(pos.z as int, UNIT as int);
    lemma_origin_inside_hits(Geometry::Sphere.bounds(), pos, dir);
}

/// Where two vectors lie on one line, the first, times the squared length
/// of the second, is the second times their scalar product.
pub proof fn lemma_parallel_scaling(a: Vec3, b: Vec3)
    requires
        a.parallel(b),
    ensures
        b.norm2() * a.x == a.dot(b) * b.x,
        b.norm2() * a.y == a.dot(b) * b.y,
        b.norm2() * a.z == a.dot(b) * b.z,
{
    let (x1, y1, z1) = (a.x as int, a.y as int, a.z as int);
    let (x2, y2, z2) = (b.x as int, b.y as int, b.z as int);
    lemma_scaling_axis(x1, y1, z1, x2, y2, z2);
    lemma_scaling_axis(y1, z1, x1, y2, z2, x2);
    lemma_scaling_axis(z1, x1, y1, z2, x2, y2);
}

/// One coordinate of the difference between a vector times the squared
/// length of another and that other times their scalar product, in the
/// coordinates of their vector product.
pub proof fn lemma_scaling_axis(x1: int, y1: int, z1: int, x2: int, y2: int, z2: int)
    ensures
        (x2 * x2 + y2 * y2 + z2 * z2) * x1 - (x1 * x2 + y1 * y2 + z1 * z2) * x2 == y2 * (x1 * y2
            - y1 * x2) - z2 * (z1 * x2 - x1 * z2),
{
    assert((x2 * x2 + y2 * y2 + z2 * z2) * x1 == (x2 * x2) * x1 + (y2 * y2) * x1 + (z2 * z2) * x1)
        by (nonlinear_arith);
    assert((x1 * x2 + y1 * y2 + z1 * z2) * x2 == (x1 * x2) * x2 + (y1 * y2) * x2 + (z1 * z2) * x2)
        by (nonlinear_arith);
    assert((x2 * x2) * x1 == (x1 * x2) * x2) by (nonlinear_arith);
    assert(y2 * (x1 * y2 - y1 * x2) == (y2 * y2) * x1 - (y1 * y2) * x2) by (nonlinear_arith);
    assert(z2 * (z1 * x2 - x1 * z2) == (z1 * z2) * x2 - (z2 * z2) * x1) by (nonlinear_arith);
}

/// A ray that starts outside the unit sphere and is aimed at its centre hits
/// it from the front. The discriminant is then the squared length of the
/// direction; where that is the square of a whole number `len`, and the
/// distance of the origin from the centre is a whole number `dist`, the ray
/// parameter is the distance to the centre less the radius, over the length
/// of the direction.
pub proof fn lemma_sphere_from_outside(pos: Vec3, dir: Vec3)
    requires
        pos.norm2() > UNIT * UNIT,
        pos.parallel(dir),
        pos.dot(dir) < 0,
    ensures
        Geometry::Sphere.hit(pos, dir) is Some,
        Geometry::Sphere.hit(pos, dir)->Some_0.side == Side::Front,
        sphere_discriminant(pos, dir) == dir.norm2() * (UNIT * UNIT),
{
    lemma_norm2(dir);
    lemma_norm2(pos);
    lemma_lagrange(pos, dir);
    let pd = pos.dot(dir);
    let dd = dir.norm2();
    let pp = pos.norm2();
    assert(pp * dd == pd * pd);
    assert(pd * pd - dd * (pp - UNIT * UNIT) == dd * (UNIT * UNIT)) by (nonlinear_arith)
        requires
            pp * dd == pd * pd,
    ;
    assert(dd != 0) by {
        if dir.is_zero() {
            assert(pd == 0) by (nonlinear_arith)
                requires
                    pd == pos.x * dir.x + pos.y * dir.y + pos.z * dir.z,
                    dir.x == 0,
                    dir.y == 0,
                    dir.z == 0,
            ;
        }
    }
    assert(dd * (UNIT * UNIT) > 0) by (nonlinear_arith)
        requires
            dd > 0,
    ;
    // the line runs through the centre, which lies in the box
    lemma_parallel_scaling(pos, dir);
    let t = Frac { num: -pd, den: dd };
    assert(in_slab(-UNIT as int, UNIT as int, pos.x as int, dir.x as int, t)) by (nonlinear_arith)
        requires
            dd > 0,
            dd * pos.x == pd * dir.x,
            t.num == -pd,
            t.den == dd,
    ;
    assert(in_slab(-UNIT as int, UNIT as int, pos.y as int, dir.y as int, t)) by (nonlinear_arith)
        requires
            dd > 0,
            dd * pos.y == pd * dir.y,
            t.num == -pd,
            t.den == dd,
    ;
    assert(in_slab(-UNIT as int, UNIT as int, pos.z as int, dir.z as int, t)) by (nonlinear_arith)
        requires
            dd > 0,
            dd * pos.z == pd * dir.z,
            t.num == -pd,
            t.den == dd,
    ;
    lemma_line_point_hits(Geometry::Sphere.bounds(), pos, dir, t);
}

/// For a ray from outside the unit sphere that is aimed at its centre, from
/// a whole distance `dist` and along a direction of a whole length `len`,
/// the ray parameter of the hit is the distance less the radius, over the
/// length: the way to the sphere in units of the direction.
pub proof fn lemma_sphere_distance(pos: Vec3, dir: Vec3, dist: int, len: int)
    requires
        pos.norm2() > UNIT * UNIT,
        pos.parallel(dir),
        pos.dot(dir) < 0,
        dist > 0,
        len > 0,
        pos.norm2() == dist * dist,
        dir.norm2() == len * len,
    ensures
        Geometry::Sphere.hit(pos, dir) is Some,
        Geometry::Sphere.hit(pos, dir)->Some_0.z.num == len * (dist - UNIT),
        Geometry::Sphere.hit(pos, dir)->Some_0.z.den == len * len,
{
    lemma_sphere_from_outside(pos, dir);
    lemma_lagrange(pos, dir);
    let pd = pos.dot(dir);
    let root = len * UNIT;
    assert(root * root == (len * len) * (UNIT * UNIT)) by (nonlinear_arith)
        requires
            root == len * UNIT,
    ;
    assert(root >= 0 && root * root < (root + 1) * (root + 1)) by (nonlinear_arith)
        requires
            root == len * UNIT,
            len > 0,
    ;
    lemma_floor_sqrt_unique(root, sphere_discriminant(pos, dir));
    assert(pd == -(dist * len)) by (nonlinear_arith)
        requires
            pd < 0,
            dist > 0,
            len > 0,
            pd * pd == (dist * dist) * (len * len),
    {
        assert((pd - dist * len) * (pd + dist * len) == 0);
    }
    assert(-pd - root == len * (dist - UNIT)) by (nonlinear_arith)
        requires
            pd == -(dist * len),
            root == len * UNIT,
    ;
}

/// The scalar triple product stays as it is when its vectors change places
/// in their round, and changes its sign when the first and the last change
/// places.
pub proof fn lemma_triple_places(p: Vec3, q: Vec3, r: Vec3)
    ensures
        p.triple(q, r) == q.triple(r, p),
        p.triple(q, r) == -r.triple(q, p),
{
    let (px, py, pz) = (p.x as int, p.y as int, p.z as int);
    let (qx, qy, qz) = (q.x as int, q.y as int, q.z as int);
    let (rx, ry, rz) = (r.x as int, r.y as int, r.z as int);
    assert(px * (qy * rz - qz * ry) == px * (qy * rz) - px * (qz * ry)) by (nonlinear_arith);
    assert(py * (qz * rx - qx * rz) == py * (qz * rx) - py * (qx * rz)) by (nonlinear_arith);
    assert(pz * (qx * ry - qy * rx) == pz * (qx * ry) - pz * (qy * rx)) by (nonlinear_arith);
    assert(qx * (ry * pz - rz * py) == pz * (qx * ry) - py * (qx * rz)) by (nonlinear_arith);
    assert(qy * (rz * px - rx * pz) == px * (qy * rz) - pz * (qy * rx)) by (nonlinear_arith);
    assert(qz * (rx * py - ry * px) == py * (qz * rx) - px * (qz * ry)) by (nonlinear_arith);
    assert(rx * (qy * pz - qz * py) == pz * (qy * rx) - py * (qz * rx)) by (nonlinear_arith);
    assert(ry * (qz * px - qx * pz) == px * (qz * ry) - pz * (qx * ry)) by (nonlinear_arith);
    assert(rz * (qx * py - qy * px) == py * (qx * rz) - px * (qy * rz)) by (nonlinear_arith);
}

/// The box around a triangle runs, along every axis, from the least to the
/// greatest coordinate of the corners.
pub proof fn lemma_triangle_box(a: Vec3, b: Vec3, c: Vec3)
    ensures
        triangle_box(a, b, c).well_formed(),
        triangle_box(a, b, c).p1.x <= a.x <= triangle_box(a, b, c).p2.x,
        triangle_box(a, b, c).p1.x <= b.x <= triangle_box(a, b, c).p2.x,
        triangle_box(a, b, c).p1.x <= c.x <= triangle_box(a, b, c).p2.x,
        triangle_box(a, b, c).p1.y <= a.y <= triangle_box(a, b, c).p2.y,
        triangle_box(a, b, c).p1.y <= b.y <= triangle_box(a, b, c).p2.y,
        triangle_box(a, b, c).p1.y <= c.y <= triangle_box(a, b, c).p2.y,
        triangle_box(a, b, c).p1.z <= a.z <= triangle_box(a, b, c).p2.z,
        triangle_box(a, b, c).p1.z <= b.z <= triangle_box(a, b, c).p2.z,
        triangle_box(a, b, c).p1.z <= c.z <= triangle_box(a, b, c).p2.z,
{
}

/// One coordinate of the point that the triangle test finds lies in the
/// slab of the box around the triangle: the point on the line at the
/// parameter `t / det` is the point of the triangle with the barycentric
/// coordinates `u / det` and `v / det`.
proof fn lemma_hit_in_slab(
    lo: int,
    hi: int,
    a: int,
    b: int,
    c: int,
    pos: int,
    dir: int,
    det: int,
    t: int,
    u: int,
    v: int,
)
    requires
        lo <= a <= hi,
        lo <= b <= hi,
        lo <= c <= hi,
        det > 0,
        0 <= u,
        0 <= v,
        u + v <= det,
        det * (pos - a) == u * (b - a) + v * (c - a) - t * dir,
    ensures
        in_slab(lo, hi, pos, dir, Frac { num: t, den: det }),
{
    lemma_blend_between(a, b, c, u, v, det, lo, hi);
    assert(pos * det + t * dir == (det - u - v) * a + u * b + v * c) by (nonlinear_arith)
        requires
            det * (pos - a) == u * (b - a) + v * (c - a) - t * dir,
    ;
}

/// A line that hits a triangle meets the box around the triangle.
pub proof fn lemma_triangle_hit_meets_box(a: Vec3, b: Vec3, c: Vec3, pos: Vec3, dir: Vec3)
    requires
        a.in_range(),
        b.in_range(),
        c.in_range(),
        pos.in_range(),
        dir.in_range(),
        triangle_hit(a, b, c, pos, dir) is Some,
    ensures
        triangle_box(a, b, c).hit_by(pos, dir),
{
    let ab = b.minus(a);
    let ac = c.minus(a);
    let tvec = pos.minus(a);
    let det = ab.triple(dir, ac);
    let u = tvec.triple(dir, ac);
    let v = dir.triple(tvec, ab);
    let t = ac.triple(tvec, ab);
    lemma_cramer(ab, dir, ac, tvec);
    lemma_triple_places(ab, dir, tvec);
    lemma_triple_places(ab, tvec, ac);
    assert(ab.triple(dir, tvec) == v);
    assert(ab.triple(tvec, ac) == -t);
    lemma_triangle_box(a, b, c);
    let bx = triangle_box(a, b, c);
    let hit = triangle_hit(a, b, c, pos, dir)->Some_0;
    let z = hit.0;
    if det > 0 {
        assert(det * (pos.x - a.x) == u * (b.x - a.x) + v * (c.x - a.x) - t * dir.x)
            by (nonlinear_arith)
            requires
                det * tvec.x == u * ab.x + (-t) * dir.x + v * ac.x,
                tvec.x == pos.x - a.x,
                ab.x == b.x - a.x,
                ac.x == c.x - a.x,
        ;
        assert(det * (pos.y - a.y) == u * (b.y - a.y) + v * (c.y - a.y) - t * dir.y)
            by (nonlinear_arith)
            requires
                det * tvec.y == u * ab.y + (-t) * dir.y + v * ac.y,
                tvec.y == pos.y - a.y,
                ab.y == b.y - a.y,
                ac.y == c.y - a.y,
        ;
        assert(det * (pos.z - a.z) == u * (b.z - a.z) + v * (c.z - a.z) - t * dir.z)
            by (nonlinear_arith)
            requires
                det * tvec.z == u * ab.z + (-t) * dir.z + v * ac.z,
                tvec.z == pos.z - a.z,
                ab.z == b.z - a.z,
                ac.z == c.z - a.z,
        ;
        lemma_hit_in_slab(bx.p1.x as int, bx.p2.x as int, a.x as int, b.x as int, c.x as int, pos.x as int, dir.x as int, det, t, u, v);
        lemma_hit_in_slab(bx.p1.y as int, bx.p2.y as int, a.y as int, b.y as int, c.y as int, pos.y as int, dir.y as int, det, t, u, v);
        lemma_hit_in_slab(bx.p1.z as int, bx.p2.z as int, a.z as int, b.z as int, c.z as int, pos.z as int, dir.z as int, det, t, u, v);
    } else {
        assert((-det) * (pos.x - a.x) == (-u) * (b.x - a.x) + (-v) * (c.x - a.x) - (-t) * dir.x)
            by (nonlinear_arith)
            requires
                det * tvec.x == u * ab.x + (-t) * dir.x + v * ac.x,
                tvec.x == pos.x - a.x,
                ab.x == b.x - a.x,
                ac.x == c.x - a.x,
        ;
        assert((-det) * (pos.y - a.y) == (-u) * (b.y - a.y) + (-v) * (c.y - a.y) - (-t) * dir.y)
            by (nonlinear_arith)
            requires
                det * tvec.y == u * ab.y + (-t) * dir.y + v * ac.y,
                tvec.y == pos.y - a.y,
                ab.y == b.y - a.y,
                ac.y == c.y - a.y,
        ;
        assert((-det) * (pos.z - a.z) == (-u) * (b.z - a.z) + (-v) * (c.z - a.z) - (-t) * dir.z)
            by (nonlinear_arith)
            requires
                det * tvec.z == u * ab.z + (-t) * dir.z + v * ac.z,
                tvec.z == pos.z - a.z,
                ab.z == b.z - a.z,
                ac.z == c.z - a.z,
        ;
        lemma_hit_in_slab(bx.p1.x as int, bx.p2.x as int, a.x as int, b.x as int, c.x as int, pos.x as int, dir.x as int, -det, -t, -u, -v);
        lemma_hit_in_slab(bx.p1.y as int, bx.p2.y as int, a.y as int, b.y as int, c.y as int, pos.y as int, dir.y as int, -det, -t, -u, -v);
        lemma_hit_in_slab(bx.p1.z as int, bx.p2.z as int, a.z as int, b.z as int, c.z as int, pos.z as int, dir.z as int, -det, -t, -u, -v);
    }
    lemma_line_point_hits(bx, pos, dir, z);
}

/// The nearest hit among some triangles is the hit of one of them, and no
/// hit of any of them is nearer.
pub proof fn lemma_nearest_among(mesh: Mesh, candidates: Seq<usize>, k: int, pos: Vec3, dir: Vec3)
    requires
        0 <= k < candidates.len(),
        mesh.face_hit(candidates[k] as int, pos, dir) is Some,
    ensures
        mesh.nearest_among(candidates, pos, dir) is Some,
        mesh.nearest_among(candidates, pos, dir)->Some_0.z.den > 0,
        mesh.nearest_among(candidates, pos, dir)->Some_0.z.le(
            mesh.face_hit(candidates[k] as int, pos, dir)->Some_0.z,
        ),
        exists|j: int|
            0 <= j < candidates.len() && mesh.nearest_among(candidates, pos, dir) == mesh.face_hit(
                (#[trigger] candidates[j]) as int,
                pos,
                dir,
            ),
    decreases candidates.len(),
{
    let last = candidates.len() - 1;
    let before = mesh.nearest_among(candidates.drop_last(), pos, dir);
    let latest = mesh.face_hit(candidates[last] as int, pos, dir);
    let found = mesh.nearest_among(candidates, pos, dir);
    let wanted = mesh.face_hit(candidates[k] as int, pos, dir)->Some_0;
    assert(found == nearer(before, latest));
    if k < last {
        lemma_nearest_among(mesh, candidates.drop_last(), k, pos, dir);
        let j = choose|j: int|
            0 <= j < last && before == mesh.face_hit(
                (#[trigger] candidates.drop_last()[j]) as int,
                pos,
                dir,
            );
        assert(candidates.drop_last()[j] == candidates[j]);
        if latest is Some && !before->Some_0.z.lt(latest->Some_0.z) {
            lemma_le_transitive(latest->Some_0.z, before->Some_0.z, wanted.z);
            assert(found == mesh.face_hit(candidates[last] as int, pos, dir));
        } else {
            assert(found == mesh.face_hit(candidates[j] as int, pos, dir));
        }
    } else {
        if before is Some && before->Some_0.z.lt(latest->Some_0.z) {
            if last > 0 {
                // the earlier hit is a hit of an earlier triangle
                lemma_nearest_is_a_hit(mesh, candidates.drop_last(), pos, dir);
                let j = choose|j: int|
                    0 <= j < last && before == mesh.face_hit(
                        (#[trigger] candidates.drop_last()[j]) as int,
                        pos,
                        dir,
                    );
                assert(candidates.drop_last()[j] == candidates[j]);
                assert(found == mesh.face_hit(candidates[j] as int, pos, dir));
            }
        } else {
            assert(found == mesh.face_hit(candidates[last] as int, pos, dir));
        }
    }
}

/// Where a hit is found among some triangles, it is the hit of one of them.
pub proof fn lemma_nearest_is_a_hit(mesh: Mesh, candidates: Seq<usize>, pos: Vec3, dir: Vec3)
    requires
        mesh.nearest_among(candidates, pos, dir) is Some,
    ensures
        mesh.nearest_among(candidates, pos, dir)->Some_0.z.den > 0,
        exists|j: int|
            0 <= j < candidates.len() && mesh.nearest_among(candidates, pos, dir) == mesh.face_hit(
                (#[trigger] candidates[j]) as int,
                pos,
                dir,
            ),
    decreases candidates.len(),
{
    if candidates.len() > 0 {
        let last = candidates.len() - 1;
        let before = mesh.nearest_among(candidates.drop_last(), pos, dir);
        let latest = mesh.face_hit(candidates[last] as int, pos, dir);
        let found = mesh.nearest_among(candidates, pos, dir);
        assert(found == nearer(before, latest));
        if found == latest {
            assert(found == mesh.face_hit(candidates[last] as int, pos, dir));
        } else {
            lemma_nearest_is_a_hit(mesh, candidates.drop_last(), pos, dir);
            let j = choose|j: int|
                0 <= j < last && before == mesh.face_hit(
                    (#[trigger] candidates.drop_last()[j]) as int,
                    pos,
                    dir,
                );
            assert(candidates.drop_last()[j] == candidates[j]);
            assert(found == mesh.face_hit(candidates[j] as int, pos, dir));
        }
    }
}

/// The hierarchy of a mesh yields every triangle that the line hits.
pub proof fn lemma_mesh_yields_hits(mesh: Mesh, face: usize, pos: Vec3, dir: Vec3)
    requires
        mesh.wf(),
        mesh.indexed(),
        pos.in_range(),
        dir.in_range(),
        face < mesh.triangles@.len(),
        mesh.face_hit(face as int, pos, dir) is Some,
    ensures
        traversal(mesh.bvh@, pos, dir).contains(face),
{
    let boxes = triangle_boxes(mesh.vertices@, mesh.triangles@);
    let corners = mesh.triangles@[face as int];
    let a = mesh.vertices@[corners.0 as int];
    let b = mesh.vertices@[corners.1 as int];
    let c = mesh.vertices@[corners.2 as int];
    lemma_triangle_hit_meets_box(a, b, c, pos, dir);
    assert(boxes[face as int] == triangle_box(a, b, c));
    assert forall|k: int| 0 <= k < boxes.len() implies (#[trigger] boxes[k]).well_formed() by {
        let at = mesh.triangles@[k];
        lemma_triangle_box(
            mesh.vertices@[at.0 as int],
            mesh.vertices@[at.1 as int],
            mesh.vertices@[at.2 as int],
        );
    }
    let t = tree(0, all_items(boxes.len()), mesh.bounding_box, boxes);
    // the line meets the box of the root, which holds the box of the triangle
    assert(t[0].bounds().hit_by(pos, dir)) by {
        if boxes.len() == 1 {
            assert(all_items(1)[0] == 0);
            assert(t[0].bounds() == boxes[0]);
        } else {
            assert(t[0].bounds() == mesh.bounding_box);
            lemma_hit_monotone(boxes[face as int], mesh.bounding_box, pos, dir);
        }
    }
    lemma_build_traversal(mesh.bounding_box, boxes, face, pos, dir);
}

/// The hit that is found in a mesh is the nearest of all: no triangle of
/// the mesh is hit at a smaller ray parameter.
pub proof fn lemma_mesh_hit_is_nearest(mesh: Mesh, face: usize, pos: Vec3, dir: Vec3)
    requires
        mesh.wf(),
        mesh.indexed(),
        pos.in_range(),
        dir.in_range(),
        face < mesh.triangles@.len(),
        mesh.face_hit(face as int, pos, dir) is Some,
    ensures
        mesh.hit(pos, dir) is Some,
        mesh.hit(pos, dir)->Some_0.z.le(mesh.face_hit(face as int, pos, dir)->Some_0.z),
{
    lemma_mesh_yields_hits(mesh, face, pos, dir);
    let yielded = traversal(mesh.bvh@, pos, dir);
    let k = choose|k: int| 0 <= k < yielded.len() && yielded[k] == face;
    lemma_nearest_among(mesh, yielded, k, pos, dir);
}

} // verus!
