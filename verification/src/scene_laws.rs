//! What holds of the search for the nearest hit in a scene.

use crate::box_laws::lemma_le_transitive;
use crate::bvh::traversal;
use crate::geometry::Geometry;
use crate::geometry_laws::{lemma_nearest_is_a_hit, lemma_norm2};
use crate::scene::{nearer_found, Node, Scene};
use crate::transform::{grid_vector, kept_in_range, Matrix3, Transform, triple_of};
use crate::vector::{UNIT, Vec3};
use vstd::prelude::*;

verus! {

/// A transform that only shifts takes points to the inner frame without
/// rounding: it takes the shift off them. It brings them back by adding
/// the shift, and it can be inverted.
pub proof fn lemma_shift_is_exact(shift: Vec3, vec: Vec3)
    ensures
        (Transform { transform: Matrix3::identity(), translate: shift }).invertible(),
        (Transform { transform: Matrix3::identity(), translate: shift }).local(vec) == grid_vector(
            vec.x - shift.x,
            vec.y - shift.y,
            vec.z - shift.z,
        ),
        (Transform { transform: Matrix3::identity(), translate: shift }).outer(vec) == (Vec3 {
            x: kept_in_range(vec.x + shift.x) as i32,
            y: kept_in_range(vec.y + shift.y) as i32,
            z: kept_in_range(vec.z + shift.z) as i32,
        }),
{
    let t = Transform { transform: Matrix3::identity(), translate: shift };
    let m = t.transform;
    let u = UNIT as int;
    let cube = u * (u * u);
    assert(cube == 68719476736) by (nonlinear_arith)
        requires
            cube == u * (u * u),
            u == 4096,
    ;
    assert(m.determinant() == cube) by (nonlinear_arith)
        requires
            m.determinant() == u * (u * u - 0 * 0) + 0 * (0 * 0 - 0 * u) + 0 * (0 * 0 - u * 0),
            cube == u * (u * u),
    ;
    let w = (vec.x - shift.x, vec.y - shift.y, vec.z - shift.z);
    lemma_identity_axis(w.0, w.1, w.2);
    lemma_identity_axis(w.1, w.2, w.0);
    lemma_identity_axis(w.2, w.0, w.1);
    assert(triple_of(w, m.y, m.z) == w.0 * (u * u - 0 * 0) + w.1 * (0 * 0 - 0 * u) + w.2 * (0 * 0
        - u * 0));
    assert(triple_of(w, m.z, m.x) == w.0 * (0 * 0 - u * 0) + w.1 * (u * u - 0 * 0) + w.2 * (0 * 0
        - 0 * u));
    assert(triple_of(w, m.x, m.y) == w.0 * (0 * 0 - 0 * u) + w.1 * (0 * 0 - u * 0) + w.2 * (u * u
        - 0 * 0));
    lemma_unit_row(vec.x as int, vec.y as int, vec.z as int);
    lemma_unit_row(vec.y as int, vec.z as int, vec.x as int);
    lemma_unit_row(vec.z as int, vec.x as int, vec.y as int);
}

/// One coordinate of a point under the matrix of the identity, by Cramer's
/// rule.
proof fn lemma_identity_axis(a: int, b: int, c: int)
    ensures
        (UNIT * (a * (UNIT * UNIT - 0 * 0) + b * (0 * 0 - 0 * UNIT) + c * (0 * 0 - UNIT * 0)))
            / 68719476736 == a,
        (UNIT * (c * (0 * 0 - UNIT * 0) + a * (UNIT * UNIT - 0 * 0) + b * (0 * 0 - 0 * UNIT)))
            / 68719476736 == a,
        (UNIT * (b * (0 * 0 - 0 * UNIT) + c * (0 * 0 - UNIT * 0) + a * (UNIT * UNIT - 0 * 0)))
            / 68719476736 == a,
{
    assert(UNIT * (a * (UNIT * UNIT - 0 * 0) + b * (0 * 0 - 0 * UNIT) + c * (0 * 0 - UNIT * 0))
        == 68719476736 * a) by (nonlinear_arith)
        requires
            UNIT == 4096,
    ;
    assert(UNIT * (c * (0 * 0 - UNIT * 0) + a * (UNIT * UNIT - 0 * 0) + b * (0 * 0 - 0 * UNIT))
        == 68719476736 * a) by (nonlinear_arith)
        requires
            UNIT == 4096,
    ;
    assert(UNIT * (b * (0 * 0 - 0 * UNIT) + c * (0 * 0 - UNIT * 0) + a * (UNIT * UNIT - 0 * 0))
        == 68719476736 * a) by (nonlinear_arith)
        requires
            UNIT == 4096,
    ;
    vstd::arithmetic::div_mod::lemma_div_multiples_vanish(a, 68719476736);
}

/// One coordinate of a point under the matrix of the identity.
proof fn lemma_unit_row(a: int, b: int, c: int)
    ensures
        (UNIT * a + 0 * b + 0 * c) / (UNIT as int) == a,
        (0 * c + UNIT * a + 0 * b) / (UNIT as int) == a,
        (0 * b + 0 * c + UNIT * a) / (UNIT as int) == a,
{
    vstd::arithmetic::div_mod::lemma_div_multiples_vanish(a, UNIT as int);
}

/// Every hit on a shape has a finite ray parameter.
pub proof fn lemma_shape_hit_finite(shape: Geometry, pos: Vec3, dir: Vec3)
    requires
        shape.hit(pos, dir) is Some,
    ensures
        shape.hit(pos, dir)->Some_0.z.den > 0,
{
    match shape {
        Geometry::Sphere => {
            lemma_norm2(dir);
        },
        Geometry::Plane => {},
        Geometry::Mesh(mesh) => {
            lemma_nearest_is_a_hit(mesh, traversal(mesh.bvh@, pos, dir), pos, dir);
        },
    }
}

/// Every hit below a node, among its object and the first `n` of its
/// children, has a finite ray parameter.
pub proof fn lemma_within_finite(node: Node, n: nat, pos: Vec3, dir: Vec3)
    requires
        node.nearest_within(n, pos, dir) is Some,
    ensures
        node.nearest_within(n, pos, dir)->Some_0.0.z.den > 0,
    decreases node, 0nat, n,
{
    if n == 0 || n > node.children@.len() {
        lemma_shape_hit_finite(node.object->Some_0.geometry, pos, dir);
    } else {
        let before = node.nearest_within((n - 1) as nat, pos, dir);
        let child = node.children@[n - 1].hit(pos, dir);
        if before is Some {
            lemma_within_finite(node, (n - 1) as nat, pos, dir);
        }
        if child is Some {
            lemma_node_hit_finite(node.children@[n - 1], pos, dir);
        }
    }
}

/// Every hit of a node has a finite ray parameter.
pub proof fn lemma_node_hit_finite(node: Node, pos: Vec3, dir: Vec3)
    requires
        node.hit(pos, dir) is Some,
    ensures
        node.hit(pos, dir)->Some_0.0.z.den > 0,
    decreases node, 1nat, 0nat,
{
    let ray = node.local_ray(pos, dir);
    lemma_within_finite(node, node.children@.len(), ray.0, ray.1);
    crate::scene::lemma_halved_finite(
        node.nearest_within(node.children@.len(), ray.0, ray.1)->Some_0.0.z,
        ray.2,
    );
}

/// The hit that is found below a node is no farther than the hit on the
/// node's own object and than the hit of any of its children.
pub proof fn lemma_within_is_nearest(node: Node, n: nat, pos: Vec3, dir: Vec3)
    requires
        n <= node.children@.len(),
    ensures
        node.nearest_within(0, pos, dir) matches Some(own) ==> node.nearest_within(n, pos, dir)
            is Some && node.nearest_within(n, pos, dir)->Some_0.0.z.le(own.0.z),
        forall|i: int|
            0 <= i < n ==> ((#[trigger] node.children@[i]).hit(pos, dir) matches Some(below)
                ==> node.nearest_within(n, pos, dir) is Some && node.nearest_within(
                n,
                pos,
                dir,
            )->Some_0.0.z.le(below.0.z)),
    decreases n,
{
    if n > 0 {
        lemma_within_is_nearest(node, (n - 1) as nat, pos, dir);
        let before = node.nearest_within((n - 1) as nat, pos, dir);
        let child = node.children@[n - 1].hit(pos, dir);
        let found = node.nearest_within(n, pos, dir);
        assert(found == nearer_found(before, child));
        if before is Some {
            lemma_within_finite(node, (n - 1) as nat, pos, dir);
        }
        if child is Some {
            lemma_node_hit_finite(node.children@[n - 1], pos, dir);
        }
        if before is Some && child is Some && child->Some_0.0.z.lt(before->Some_0.0.z) {
            let near = child->Some_0.0.z;
            let mid = before->Some_0.0.z;
            if node.nearest_within(0, pos, dir) is Some {
                lemma_within_finite(node, 0, pos, dir);
                lemma_le_transitive(near, mid, node.nearest_within(0, pos, dir)->Some_0.0.z);
            }
            assert forall|i: int| 0 <= i < n implies ((#[trigger] node.children@[i]).hit(pos, dir)
                matches Some(below) ==> found is Some && found->Some_0.0.z.le(below.0.z)) by {
                if i < n - 1 && node.children@[i].hit(pos, dir) is Some {
                    lemma_node_hit_finite(node.children@[i], pos, dir);
                    lemma_le_transitive(near, mid, node.children@[i].hit(pos, dir)->Some_0.0.z);
                }
            }
        }
    }
}

/// Every hit among the first `n` nodes of a scene has a finite ray
/// parameter.
pub proof fn lemma_scene_hit_finite(scene: Scene, n: nat, pos: Vec3, dir: Vec3)
    requires
        scene.nearest_of(n, pos, dir) is Some,
    ensures
        scene.nearest_of(n, pos, dir)->Some_0.0.z.den > 0,
    decreases n,
{
    if n > 0 && n <= scene.nodes@.len() {
        let before = scene.nearest_of((n - 1) as nat, pos, dir);
        let latest = scene.nodes@[n - 1].hit(pos, dir);
        if before is Some {
            lemma_scene_hit_finite(scene, (n - 1) as nat, pos, dir);
        }
        if latest is Some {
            lemma_node_hit_finite(scene.nodes@[n - 1], pos, dir);
        }
    }
}

/// The hit that is found among the first `n` nodes of a scene is no farther
/// than the hit of any of them.
pub proof fn lemma_nearest_of(scene: Scene, n: nat, pos: Vec3, dir: Vec3)
    requires
        n <= scene.nodes@.len(),
    ensures
        forall|i: int|
            0 <= i < n ==> ((#[trigger] scene.nodes@[i]).hit(pos, dir) matches Some(other)
                ==> scene.nearest_of(n, pos, dir) is Some && scene.nearest_of(
                n,
                pos,
                dir,
            )->Some_0.0.z.le(other.0.z)),
    decreases n,
{
    if n > 0 {
        lemma_nearest_of(scene, (n - 1) as nat, pos, dir);
        let before = scene.nearest_of((n - 1) as nat, pos, dir);
        let latest = scene.nodes@[n - 1].hit(pos, dir);
        let found = scene.nearest_of(n, pos, dir);
        assert(found == nearer_found(before, latest));
        if before is Some {
            lemma_scene_hit_finite(scene, (n - 1) as nat, pos, dir);
        }
        if latest is Some {
            lemma_node_hit_finite(scene.nodes@[n - 1], pos, dir);
        }
        if before is Some && latest is Some && latest->Some_0.0.z.lt(before->Some_0.0.z) {
            let near = latest->Some_0.0.z;
            let mid = before->Some_0.0.z;
            assert forall|i: int| 0 <= i < n implies ((#[trigger] scene.nodes@[i]).hit(pos, dir)
                matches Some(other) ==> found is Some && found->Some_0.0.z.le(other.0.z)) by {
                if i < n - 1 && scene.nodes@[i].hit(pos, dir) is Some {
                    lemma_node_hit_finite(scene.nodes@[i], pos, dir);
                    lemma_le_transitive(near, mid, scene.nodes@[i].hit(pos, dir)->Some_0.0.z);
                }
            }
        }
    }
}

/// The hit that is found in a scene is the nearest of all: no node of the
/// scene is hit at a smaller ray parameter.
pub proof fn lemma_scene_hit_is_nearest(scene: Scene, i: int, pos: Vec3, dir: Vec3)
    requires
        0 <= i < scene.nodes@.len(),
        scene.nodes@[i].hit(pos, dir) is Some,
    ensures
        scene.hit(pos, dir) is Some,
        scene.hit(pos, dir)->Some_0.0.z.le(scene.nodes@[i].hit(pos, dir)->Some_0.0.z),
{
    lemma_nearest_of(scene, scene.nodes@.len(), pos, dir);
}

/// A scene in which no node is hit has no hit.
pub proof fn lemma_scene_miss(scene: Scene, n: nat, pos: Vec3, dir: Vec3)
    requires
        n <= scene.nodes@.len(),
        forall|i: int| 0 <= i < n ==> (#[trigger] scene.nodes@[i]).hit(pos, dir) is None,
    ensures
        scene.nearest_of(n, pos, dir) is None,
    decreases n,
{
    if n > 0 {
        lemma_scene_miss(scene, (n - 1) as nat, pos, dir);
    }
}

} // verus!
