//! Triangle meshes: the test of a line against a triangle, and the search
//! for the nearest triangle that a ray hits.

use crate::arith::{floor_div, lemma_mul_bound, mul_wide};
use crate::bounding_box::BoundingBox;
use crate::bvh::{all_items, BuildError, BVH, traversal, tree};
use crate::bvh_laws::{leaf_of, lemma_build, lemma_walk_yields_leaves};
use crate::scene::{hit_view, HitInfo, HitView, nearer, Side};
use crate::vector::{Frac, Ratio, Vec3};
use vstd::prelude::*;

verus! {

/// The smallest magnitude of the determinant at which the triangle test
/// goes on. On the grid every determinant is a whole number, so this leaves
/// out exactly the lines that run parallel to the plane of the triangle.
pub const EPSILON: i64 = 1;

/// A line's meeting with a triangle: the ray parameter `t` and the
/// barycentric coordinates `u` and `v` of the point, all three over the
/// same positive denominator, and the face that was struck.
#[derive(Debug, Clone, Copy)]
pub struct TriangleHit {
    pub t: Ratio,
    pub u: Ratio,
    pub v: Ratio,
    pub side: Side,
}

/// The triangle test of Moeller and Trumbore in whole numbers. With the
/// edges `ab` and `ac` and `tvec` from `a` to the ray's origin, Cramer's rule
/// gives `t`, `u` and `v` as quotients of scalar triple products over the
/// determinant `det`. The line misses where `det` is zero, where `u` or `v`
/// is negative or `u + v` exceeds one, and where `t` is negative. The front
/// is struck where `det` is positive.
pub open spec fn triangle_hit(a: Vec3, b: Vec3, c: Vec3, pos: Vec3, dir: Vec3) -> Option<
    (Frac, Frac, Frac, Side),
> {
    let ab = b.minus(a);
    let ac = c.minus(a);
    let tvec = pos.minus(a);
    let det = ab.triple(dir, ac);
    let u = tvec.triple(dir, ac);
    let v = dir.triple(tvec, ab);
    let t = ac.triple(tvec, ab);
    if -EPSILON < det < EPSILON {
        None
    } else if det > 0 {
        if u < 0 || u > det || v < 0 || u + v > det || t < 0 {
            None
        } else {
            Some(
                (
                    Frac { num: t, den: det },
                    Frac { num: u, den: det },
                    Frac { num: v, den: det },
                    Side::Front,
                ),
            )
        }
    } else {
        if u > 0 || u < det || v > 0 || u + v < det || t > 0 {
            None
        } else {
            Some(
                (
                    Frac { num: -t, den: -det },
                    Frac { num: -u, den: -det },
                    Frac { num: -v, den: -det },
                    Side::Back,
                ),
            )
        }
    }
}

/// Tests the line through `pos` along `dir` against the triangle `a b c`.
pub fn intersect_triangle(a: Vec3, b: Vec3, c: Vec3, pos: Vec3, dir: Vec3) -> (r: Option<
    TriangleHit,
>)
    requires
        a.in_range(),
        b.in_range(),
        c.in_range(),
        pos.in_range(),
        dir.in_range(),
    ensures
        match r {
            Some(hit) => triangle_hit(a, b, c, pos, dir) == Some(
                (hit.t@, hit.u@, hit.v@, hit.side),
            ),
            None => triangle_hit(a, b, c, pos, dir).is_none(),
        },
{
    let ab = b.difference(&a);
    let ac = c.difference(&a);
    let det: i64 = ab.triple_product(&dir, &ac);
    if -EPSILON < det && det < EPSILON {
        return None;
    }
    let tvec = pos.difference(&a);
    let sign: i64 = if det > 0 {
        1
    } else {
        -1
    };
    let den: i64 = sign * det;
    let u: i64 = sign * tvec.triple_product(&dir, &ac);
    if u < 0 || u > den {
        return None;
    }
    let v: i64 = sign * dir.triple_product(&tvec, &ab);
    if v < 0 || v > den - u {
        return None;
    }
    let t: i64 = sign * ac.triple_product(&tvec, &ab);
    if t < 0 {
        return None;
    }
    let side = if det > 0 {
        Side::Front
    } else {
        Side::Back
    };
    Some(
        TriangleHit {
            t: Ratio { num: t, den },
            u: Ratio { num: u, den },
            v: Ratio { num: v, den },
            side,
        },
    )
}

/// One coordinate of the point with the barycentric coordinates `u / d` and
/// `v / d` in the triangle whose corners have the coordinates `p0`, `p1` and
/// `p2`, rounded down to the grid.
pub open spec fn blend(p0: int, p1: int, p2: int, u: int, v: int, d: int) -> int {
    ((d - u - v) * p0 + u * p1 + v * p2) / d
}

/// The point with the barycentric coordinates `u` and `v` in the triangle
/// `p0 p1 p2`, rounded down to the grid: `(1 - u - v) p0 + u p1 + v p2`.
pub open spec fn interpolated(p0: Vec3, p1: Vec3, p2: Vec3, u: Frac, v: Frac) -> Vec3 {
    Vec3 {
        x: blend(p0.x as int, p1.x as int, p2.x as int, u.num, v.num, u.den) as i32,
        y: blend(p0.y as int, p1.y as int, p2.y as int, u.num, v.num, u.den) as i32,
        z: blend(p0.z as int, p1.z as int, p2.z as int, u.num, v.num, u.den) as i32,
    }
}

/// A point inside a triangle has each coordinate between the least and the
/// greatest of that coordinate at the corners.
pub proof fn lemma_blend_between(p0: int, p1: int, p2: int, u: int, v: int, d: int, lo: int, hi: int)
    requires
        lo <= p0 <= hi,
        lo <= p1 <= hi,
        lo <= p2 <= hi,
        0 <= u,
        0 <= v,
        u + v <= d,
        d > 0,
    ensures
        lo <= blend(p0, p1, p2, u, v, d) <= hi,
        lo * d <= (d - u - v) * p0 + u * p1 + v * p2 <= hi * d,
{
    let s = (d - u - v) * p0 + u * p1 + v * p2;
    assert(lo * d <= s <= hi * d) by (nonlinear_arith)
        requires
            s == (d - u - v) * p0 + u * p1 + v * p2,
            lo <= p0 <= hi,
            lo <= p1 <= hi,
            lo <= p2 <= hi,
            0 <= u,
            0 <= v,
            u + v <= d,
    {
        assert((d - u - v) * lo <= (d - u - v) * p0 <= (d - u - v) * hi);
        assert(u * lo <= u * p1 <= u * hi);
        assert(v * lo <= v * p2 <= v * hi);
        assert((d - u - v) * lo + u * lo + v * lo == lo * d);
        assert((d - u - v) * hi + u * hi + v * hi == hi * d);
    }
    vstd::arithmetic::div_mod::lemma_div_is_ordered(lo * d, s, d);
    vstd::arithmetic::div_mod::lemma_div_is_ordered(s, hi * d, d);
    vstd::arithmetic::div_mod::lemma_div_multiples_vanish(lo, d);
    vstd::arithmetic::div_mod::lemma_div_multiples_vanish(hi, d);
    assert(lo * d == d * lo && hi * d == d * hi) by (nonlinear_arith);
}

fn blend_coordinate(p0: i32, p1: i32, p2: i32, u: i64, v: i64, d: i64) -> (r: i32)
    requires
        0 <= u,
        0 <= v,
        u + v <= d,
        d > 0,
    ensures
        r == blend(p0 as int, p1 as int, p2 as int, u as int, v as int, d as int),
{
    let w: i64 = d - u - v;
    let s0: i128 = mul_wide(w, p0 as i64);
    let s1: i128 = mul_wide(u, p1 as i64);
    let s2: i128 = mul_wide(v, p2 as i64);
    proof {
        lemma_mul_bound(w as int, p0 as int, 0x8000_0000_0000_0000, 0x8000_0000);
        lemma_mul_bound(u as int, p1 as int, 0x8000_0000_0000_0000, 0x8000_0000);
        lemma_mul_bound(v as int, p2 as int, 0x8000_0000_0000_0000, 0x8000_0000);
        lemma_blend_between(
            p0 as int,
            p1 as int,
            p2 as int,
            u as int,
            v as int,
            d as int,
            -0x8000_0000,
            0x7fff_ffff,
        );
    }
    let q: i128 = floor_div(s0 + s1 + s2, d as i128);
    q as i32
}

/// The point with the barycentric coordinates `u / d` and `v / d` in the
/// triangle `p0 p1 p2`.
fn interpolate(p0: Vec3, p1: Vec3, p2: Vec3, u: Ratio, v: Ratio) -> (r: Vec3)
    requires
        0 <= u.num,
        0 <= v.num,
        u.num + v.num <= u.den,
        u.den > 0,
        v.den == u.den,
    ensures
        r == interpolated(p0, p1, p2, u@, v@),
{
    Vec3 {
        x: blend_coordinate(p0.x, p1.x, p2.x, u.num, v.num, u.den),
        y: blend_coordinate(p0.y, p1.y, p2.y, u.num, v.num, u.den),
        z: blend_coordinate(p0.z, p1.z, p2.z, u.num, v.num, u.den),
    }
}

/// A triangle mesh. Positions, normals and texture coordinates each have
/// their own list and their own triple of indices for every triangle.
#[derive(Debug)]
pub struct Mesh {
    pub vertices: Vec<Vec3>,
    pub triangles: Vec<(usize, usize, usize)>,
    pub normals: Vec<Vec3>,
    pub normal_triangles: Vec<(usize, usize, usize)>,
    pub texture_vertices: Vec<Vec3>,
    pub texture_triangles: Vec<(usize, usize, usize)>,
    pub bounding_box: BoundingBox,
    pub bvh: BVH,
}

/// Every index of every triple is below `count`.
pub open spec fn indices_below(triples: Seq<(usize, usize, usize)>, count: int) -> bool {
    forall|f: int|
        0 <= f < triples.len() ==> (#[trigger] triples[f]).0 < count && triples[f].1 < count
            && triples[f].2 < count
}

/// The box around a triangle.
pub open spec fn triangle_box(a: Vec3, b: Vec3, c: Vec3) -> BoundingBox {
    (BoundingBox { p1: a, p2: a }).union_with(BoundingBox { p1: b, p2: b }).union_with(
        BoundingBox { p1: c, p2: c },
    )
}

/// The boxes around the triangles of a mesh, in the order of the triangles.
pub open spec fn triangle_boxes(vertices: Seq<Vec3>, triangles: Seq<(usize, usize, usize)>) -> Seq<
    BoundingBox,
> {
    Seq::new(
        triangles.len(),
        |f: int|
            triangle_box(
                vertices[triangles[f].0 as int],
                vertices[triangles[f].1 as int],
                vertices[triangles[f].2 as int],
            ),
    )
}

/// The box around the first `n` of the points, grown point by point from
/// the first.
pub open spec fn points_box(points: Seq<Vec3>, n: nat) -> BoundingBox
    decreases n,
{
    if n <= 1 {
        BoundingBox { p1: points[0], p2: points[0] }
    } else {
        points_box(points, (n - 1) as nat).union_with(
            BoundingBox { p1: points[n - 1], p2: points[n - 1] },
        )
    }
}

/// Why a mesh could not be made of the lists given.
#[derive(Debug, Clone, Copy, PartialEq, Eq, Structural)]
pub enum MeshError {
    /// There is no vertex.
    NoVertices,
    /// There is no triangle.
    NoTriangles,
    /// The three lists of triples differ in length.
    TripleCount,
    /// A vertex has a coordinate beyond the range of the grid.
    OutOfRange,
    /// A triple holds an index beyond the end of its list.
    BadIndex,
}

/// The first thing that is wrong with the lists of a mesh, if anything is.
pub open spec fn mesh_defect(
    vertices: Seq<Vec3>,
    triangles: Seq<(usize, usize, usize)>,
    normals: Seq<Vec3>,
    normal_triangles: Seq<(usize, usize, usize)>,
    texture_vertices: Seq<Vec3>,
    texture_triangles: Seq<(usize, usize, usize)>,
) -> Option<MeshError> {
    if vertices.len() == 0 {
        Some(MeshError::NoVertices)
    } else if triangles.len() == 0 {
        Some(MeshError::NoTriangles)
    } else if normal_triangles.len() != triangles.len() || texture_triangles.len()
        != triangles.len() {
        Some(MeshError::TripleCount)
    } else if !(forall|i: int| 0 <= i < vertices.len() ==> (#[trigger] vertices[i]).in_range()) {
        Some(MeshError::OutOfRange)
    } else if !indices_below(triangles, vertices.len() as int) || !indices_below(
        normal_triangles,
        normals.len() as int,
    ) || !indices_below(texture_triangles, texture_vertices.len() as int) {
        Some(MeshError::BadIndex)
    } else {
        None
    }
}

fn all_below(triples: &Vec<(usize, usize, usize)>, count: usize) -> (r: bool)
    ensures
        r == indices_below(triples@, count as int),
{
    let mut f: usize = 0;
    while f < triples.len()
        invariant
            f <= triples@.len(),
            indices_below(triples@.take(f as int), count as int),
        decreases triples@.len() - f,
    {
        let triple = triples[f];
        if triple.0 >= count || triple.1 >= count || triple.2 >= count {
            return false;
        }
        assert forall|g: int| 0 <= g < f + 1 implies (#[trigger] triples@.take(f + 1)[g]).0 < count
            && triples@.take(f + 1)[g].1 < count && triples@.take(f + 1)[g].2 < count by {
            if g < f {
                assert(triples@.take(f as int)[g] == triples@[g]);
            }
        }
        f += 1;
    }
    assert(triples@.take(f as int) =~= triples@);
    true
}

fn all_in_range(points: &Vec<Vec3>) -> (r: bool)
    ensures
        r == (forall|i: int| 0 <= i < points@.len() ==> (#[trigger] points@[i]).in_range()),
{
    let mut i: usize = 0;
    while i < points.len()
        invariant
            i <= points@.len(),
            forall|k: int| 0 <= k < i ==> (#[trigger] points@[k]).in_range(),
        decreases points@.len() - i,
    {
        if !points[i].is_in_range() {
            return false;
        }
        i += 1;
    }
    true
}

fn box_around(points: &Vec<Vec3>) -> (b: BoundingBox)
    requires
        points@.len() > 0,
    ensures
        b == points_box(points@, points@.len()),
{
    let mut b = BoundingBox { p1: points[0], p2: points[0] };
    let mut i: usize = 1;
    while i < points.len()
        invariant
            1 <= i <= points@.len(),
            b == points_box(points@, i as nat),
        decreases points@.len() - i,
    {
        b.union(&BoundingBox { p1: points[i], p2: points[i] });
        i += 1;
    }
    b
}

/// The box around points holds each of them.
pub proof fn lemma_points_box(points: Seq<Vec3>, n: nat, k: int)
    requires
        0 <= k < n <= points.len(),
    ensures
        points_box(points, n).contains(BoundingBox { p1: points[k], p2: points[k] }),
    decreases n,
{
    if n > 1 && k < n - 1 {
        lemma_points_box(points, (n - 1) as nat, k);
    }
}

impl Mesh {
    /// The hierarchy of the mesh is the one that is built over the boxes
    /// around its triangles, under the box of the mesh, and that box holds
    /// every triangle.
    pub open spec fn indexed(&self) -> bool {
        &&& self.triangles@.len() > 0
        &&& 2 * self.triangles@.len() - 1 <= usize::MAX
        &&& self.bvh@ == tree(
            0,
            all_items(self.triangles@.len()),
            self.bounding_box,
            triangle_boxes(self.vertices@, self.triangles@),
        )
        &&& forall|f: int|
            0 <= f < self.triangles@.len() ==> self.bounding_box.contains(
                #[trigger] triangle_boxes(self.vertices@, self.triangles@)[f],
            )
    }

    /// Makes a mesh of its lists: checks them, puts the box around the
    /// vertices, and builds the hierarchy over the triangles.
    pub fn new(
        vertices: Vec<Vec3>,
        triangles: Vec<(usize, usize, usize)>,
        normals: Vec<Vec3>,
        normal_triangles: Vec<(usize, usize, usize)>,
        texture_vertices: Vec<Vec3>,
        texture_triangles: Vec<(usize, usize, usize)>,
    ) -> (r: Result<Mesh, MeshError>)
        ensures
            match r {
                Ok(mesh) => {
                    &&& mesh_defect(
                        vertices@,
                        triangles@,
                        normals@,
                        normal_triangles@,
                        texture_vertices@,
                        texture_triangles@,
                    ).is_none()
                    &&& mesh.wf()
                    &&& mesh.indexed()
                    &&& mesh.vertices == vertices
                    &&& mesh.triangles == triangles
                    &&& mesh.normals == normals
                    &&& mesh.normal_triangles == normal_triangles
                    &&& mesh.texture_vertices == texture_vertices
                    &&& mesh.texture_triangles == texture_triangles
                    &&& mesh.bounding_box == points_box(vertices@, vertices@.len())
                    &&& mesh.bvh@ == tree(
                        0,
                        all_items(triangles@.len()),
                        mesh.bounding_box,
                        triangle_boxes(vertices@, triangles@),
                    )
                },
                Err(e) => mesh_defect(
                    vertices@,
                    triangles@,
                    normals@,
                    normal_triangles@,
                    texture_vertices@,
                    texture_triangles@,
                ) == Some(e),
            },
    {
        if vertices.len() == 0 {
            return Err(MeshError::NoVertices);
        }
        if triangles.len() == 0 {
            return Err(MeshError::NoTriangles);
        }
        if normal_triangles.len() != triangles.len() || texture_triangles.len()
            != triangles.len() {
            return Err(MeshError::TripleCount);
        }
        if !all_in_range(&vertices) {
            return Err(MeshError::OutOfRange);
        }
        if !all_below(&triangles, vertices.len()) || !all_below(&normal_triangles, normals.len())
            || !all_below(&texture_triangles, texture_vertices.len()) {
            return Err(MeshError::BadIndex);
        }
        let bounding_box = box_around(&vertices);
        let bvh = match Mesh::build_bvh(vertices.as_slice(), triangles.as_slice(), bounding_box) {
            Ok(bvh) => bvh,
            Err(_) => {
                return Err(MeshError::NoTriangles);
            },
        };
        proof {
            let boxes = triangle_boxes(vertices@, triangles@);
            lemma_build(bounding_box, boxes);
            assert forall|k: int, item: usize| #[trigger] leaf_of(bvh@, k, item) implies item
                < triangles@.len() by {
                assert(bvh@[k] is Leaf);
            }
            assert forall|f: int| 0 <= f < triangles@.len() implies bounding_box.contains(
                #[trigger] boxes[f],
            ) by {
                let corners = triangles@[f];
                lemma_points_box(vertices@, vertices@.len(), corners.0 as int);
                lemma_points_box(vertices@, vertices@.len(), corners.1 as int);
                lemma_points_box(vertices@, vertices@.len(), corners.2 as int);
            }
        }
        Ok(
            Mesh {
                vertices,
                triangles,
                normals,
                normal_triangles,
                texture_vertices,
                texture_triangles,
                bounding_box,
                bvh,
            },
        )
    }

    /// The mesh is consistent: every triangle has its three triples, every
    /// index points into its list, every vertex is in range, and the
    /// hierarchy holds triangles of this mesh.
    pub open spec fn wf(&self) -> bool {
        &&& self.normal_triangles@.len() == self.triangles@.len()
        &&& self.texture_triangles@.len() == self.triangles@.len()
        &&& indices_below(self.triangles@, self.vertices@.len() as int)
        &&& indices_below(self.normal_triangles@, self.normals@.len() as int)
        &&& indices_below(self.texture_triangles@, self.texture_vertices@.len() as int)
        &&& forall|i: int| 0 <= i < self.vertices@.len() ==> (#[trigger] self.vertices@[i]).in_range()
        &&& forall|k: int, item: usize| #[trigger]
            leaf_of(self.bvh@, k, item) ==> item < self.triangles@.len()
    }

    /// Whether the mesh is consistent.
    pub fn is_well_formed(&self) -> (r: bool)
        ensures
            r == self.wf(),
    {
        let ok = self.normal_triangles.len() == self.triangles.len() && self.texture_triangles.len()
            == self.triangles.len() && all_below(&self.triangles, self.vertices.len()) && all_below(
            &self.normal_triangles,
            self.normals.len(),
        ) && all_below(&self.texture_triangles, self.texture_vertices.len()) && all_in_range(
            &self.vertices,
        ) && self.bvh.items_below(self.triangles.len());
        proof {
            if ok {
                assert forall|k: int, item: usize| #[trigger]
                    leaf_of(self.bvh@, k, item) implies item < self.triangles@.len() by {
                    assert(self.bvh@[k] is Leaf);
                }
            }
            if self.wf() {
                assert forall|k: int|
                    0 <= k < self.bvh@.len() && (#[trigger] self.bvh@[k]) is Leaf implies self.bvh@[k]->index
                    < self.triangles@.len() by {
                    assert(leaf_of(self.bvh@, k, self.bvh@[k]->index));
                }
            }
        }
        ok
    }

    /// What the line through `pos` along `dir` hits of triangle `face`: the
    /// parameter and the face struck from the triangle test, and position,
    /// normal and texture coordinates interpolated between the corners.
    pub open spec fn face_hit(&self, face: int, pos: Vec3, dir: Vec3) -> Option<HitView> {
        let points = self.triangles@[face];
        let around = self.normal_triangles@[face];
        let mapped = self.texture_triangles@[face];
        match triangle_hit(
            self.vertices@[points.0 as int],
            self.vertices@[points.1 as int],
            self.vertices@[points.2 as int],
            pos,
            dir,
        ) {
            None => None,
            Some((t, u, v, side)) => Some(
                HitView {
                    z: t,
                    pos: interpolated(
                        self.vertices@[points.0 as int],
                        self.vertices@[points.1 as int],
                        self.vertices@[points.2 as int],
                        u,
                        v,
                    ),
                    uv: interpolated(
                        self.texture_vertices@[mapped.0 as int],
                        self.texture_vertices@[mapped.1 as int],
                        self.texture_vertices@[mapped.2 as int],
                        u,
                        v,
                    ),
                    normal: interpolated(
                        self.normals@[around.0 as int],
                        self.normals@[around.1 as int],
                        self.normals@[around.2 as int],
                        u,
                        v,
                    ),
                    side,
                },
            ),
        }
    }

    /// The nearest hit among the triangles `candidates`, taken in their
    /// order: a later one replaces an earlier one unless that is strictly
    /// nearer.
    pub open spec fn nearest_among(&self, candidates: Seq<usize>, pos: Vec3, dir: Vec3) -> Option<
        HitView,
    >
        decreases candidates.len(),
    {
        if candidates.len() == 0 {
            None
        } else {
            nearer(
                self.nearest_among(candidates.drop_last(), pos, dir),
                self.face_hit(candidates.last() as int, pos, dir),
            )
        }
    }

    /// The nearest hit among the triangles that a traversal of the hierarchy
    /// yields.
    pub open spec fn hit(&self, pos: Vec3, dir: Vec3) -> Option<HitView> {
        self.nearest_among(traversal(self.bvh@, pos, dir), pos, dir)
    }

    fn get_point(&self, face: usize, u: Ratio, v: Ratio) -> (r: Vec3)
        requires
            self.wf(),
            face < self.triangles@.len(),
            0 <= u.num,
            0 <= v.num,
            u.num + v.num <= u.den,
            u.den > 0,
            v.den == u.den,
        ensures
            r == interpolated(
                self.vertices@[self.triangles@[face as int].0 as int],
                self.vertices@[self.triangles@[face as int].1 as int],
                self.vertices@[self.triangles@[face as int].2 as int],
                u@,
                v@,
            ),
    {
        let points = self.triangles[face];
        interpolate(
            self.vertices[points.0],
            self.vertices[points.1],
            self.vertices[points.2],
            u,
            v,
        )
    }

    fn get_normal(&self, face: usize, u: Ratio, v: Ratio) -> (r: Vec3)
        requires
            self.wf(),
            face < self.triangles@.len(),
            0 <= u.num,
            0 <= v.num,
            u.num + v.num <= u.den,
            u.den > 0,
            v.den == u.den,
        ensures
            r == interpolated(
                self.normals@[self.normal_triangles@[face as int].0 as int],
                self.normals@[self.normal_triangles@[face as int].1 as int],
                self.normals@[self.normal_triangles@[face as int].2 as int],
                u@,
                v@,
            ),
    {
        let points = self.normal_triangles[face];
        interpolate(self.normals[points.0], self.normals[points.1], self.normals[points.2], u, v)
    }

    fn get_uv(&self, face: usize, u: Ratio, v: Ratio) -> (r: Vec3)
        requires
            self.wf(),
            face < self.triangles@.len(),
            0 <= u.num,
            0 <= v.num,
            u.num + v.num <= u.den,
            u.den > 0,
            v.den == u.den,
        ensures
            r == interpolated(
                self.texture_vertices@[self.texture_triangles@[face as int].0 as int],
                self.texture_vertices@[self.texture_triangles@[face as int].1 as int],
                self.texture_vertices@[self.texture_triangles@[face as int].2 as int],
                u@,
                v@,
            ),
    {
        let points = self.texture_triangles[face];
        interpolate(
            self.texture_vertices[points.0],
            self.texture_vertices[points.1],
            self.texture_vertices[points.2],
            u,
            v,
        )
    }

    /// Builds the hierarchy over the triangles of a mesh, each under the box
    /// around its corners, with `bounding_box` as the box of the whole.
    pub fn build_bvh(
        vertices: &[Vec3],
        triangles: &[(usize, usize, usize)],
        bounding_box: BoundingBox,
    ) -> (r: Result<BVH, BuildError>)
        requires
            indices_below(triangles@, vertices@.len() as int),
        ensures
            triangles@.len() == 0 ==> r == Err::<BVH, BuildError>(BuildError::NoItems),
            triangles@.len() > 0 ==> r is Ok && r->Ok_0@ == tree(
                0,
                all_items(triangles@.len()),
                bounding_box,
                triangle_boxes(vertices@, triangles@),
            ),
            2 * triangles@.len() - 1 <= usize::MAX,
    {
        let mut boxes: Vec<BoundingBox> = Vec::with_capacity(triangles.len());
        let mut f: usize = 0;
        while f < triangles.len()
            invariant
                f <= triangles@.len(),
                indices_below(triangles@, vertices@.len() as int),
                boxes@ == triangle_boxes(vertices@, triangles@).take(f as int),
            decreases triangles@.len() - f,
        {
            let triangle = triangles[f];
            let a = vertices[triangle.0];
            let b = vertices[triangle.1];
            let c = vertices[triangle.2];
            let mut bounding_box = BoundingBox { p1: a, p2: a };
            bounding_box.union(&BoundingBox { p1: b, p2: b });
            bounding_box.union(&BoundingBox { p1: c, p2: c });
            boxes.push(bounding_box);
            assert(boxes@ =~= triangle_boxes(vertices@, triangles@).take(f + 1));
            f += 1;
        }
        assert(boxes@ =~= triangle_boxes(vertices@, triangles@));
        BVH::build(bounding_box, boxes.as_slice())
    }

    /// Finds the nearest hit of the line through `pos` along `dir` among the
    /// triangles that the hierarchy yields for it.
    pub fn intersect(&self, pos: Vec3, dir: Vec3) -> (r: Option<HitInfo>)
        requires
            self.wf(),
            pos.in_range(),
            dir.in_range(),
        ensures
            hit_view(r) == self.hit(pos, dir),
    {
        let mut nearest: Option<HitInfo> = None;
        let mut it = self.bvh.traverse(pos, dir);
        let ghost all = it.remaining();
        let ghost mut done: Seq<usize> = Seq::empty();
        loop
            invariant
                self.wf(),
                pos.in_range(),
                dir.in_range(),
                all == traversal(self.bvh@, pos, dir),
                done + it.remaining() == all,
                hit_view(nearest) == self.nearest_among(done, pos, dir),
            ensures
                hit_view(nearest) == self.nearest_among(all, pos, dir),
            decreases it.remaining().len(),
        {
            let ghost rest = it.remaining();
            let i: usize = match it.next() {
                Some(i) => i,
                None => {
                    assert(done =~= all);
                    break ;
                },
            };
            proof {
                assert(all[done.len() as int] == i);
                let k = lemma_walk_yields_leaves(self.bvh@, 0, done.len() as int, pos, dir);
                assert(leaf_of(self.bvh@, k, i));
                assert(done.push(i).drop_last() =~= done);
                assert(done.push(i) + it.remaining() =~= all);
                done = done.push(i);
            }
            let triangle = self.triangles[i];
            let a = self.vertices[triangle.0];
            let b = self.vertices[triangle.1];
            let c = self.vertices[triangle.2];
            if let Some(hit) = intersect_triangle(a, b, c, pos, dir) {
                let keep = match nearest {
                    Some(nearest_hit_info) => nearest_hit_info.z.less_than(&hit.t),
                    None => false,
                };
                if !keep {
                    nearest = Some(
                        HitInfo {
                            z: hit.t,
                            pos: self.get_point(i, hit.u, hit.v),
                            uv: self.get_uv(i, hit.u, hit.v),
                            normal: self.get_normal(i, hit.u, hit.v),
                            side: hit.side,
                        },
                    );
                }
            }
        }
        nearest
    }
}

} // verus!
