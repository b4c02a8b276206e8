use raytracer::bounding_box::{Bounded, BoundingBox};
use raytracer::geometry::{Geometry};
use raytracer::mesh::{intersect_triangle, Mesh, MeshError};
use raytracer::scene::Side;
use raytracer::vector::{Ratio, Vec3, UNIT};

const U: i32 = UNIT;

fn v(x: i32, y: i32, z: i32) -> Vec3 {
    Vec3::new(x, y, z)
}

/// A flat grid of `n` by `n` cells over the unit square at height zero.
fn grid_mesh(n: usize) -> Mesh {
    let mut vertices = Vec::new();
    let mut uvs = Vec::new();
    for j in 0..=n {
        for i in 0..=n {
            let x = -U + (2 * U * i as i32) / n as i32;
            let y = -U + (2 * U * j as i32) / n as i32;
            vertices.push(v(x, y, 0));
            uvs.push(v((x + U) / 2, (y + U) / 2, 0));
        }
    }
    let mut triangles = Vec::new();
    for j in 0..n {
        for i in 0..n {
            let a = j * (n + 1) + i;
            let b = a + 1;
            let c = a + n + 1;
            let d = c + 1;
            triangles.push((a, b, d));
            triangles.push((a, d, c));
        }
    }
    let normals = vec![v(0, 0, U)];
    let normal_triangles = vec![(0, 0, 0); triangles.len()];
    let texture_triangles = triangles.clone();
    Mesh::new(vertices, triangles, normals, normal_triangles, uvs, texture_triangles).unwrap()
}

#[test]
fn triangle_hit_from_the_front() {
    let hit = intersect_triangle(v(0, 0, 0), v(10, 0, 0), v(0, 10, 0), v(2, 2, 10), v(0, 0, -1))
        .unwrap();
    assert_eq!((hit.t.num, hit.t.den), (1000, 100));
    assert_eq!((hit.u.num, hit.u.den), (20, 100));
    assert_eq!((hit.v.num, hit.v.den), (20, 100));
    assert_eq!(hit.side, Side::Front);
}

#[test]
fn triangle_hit_from_the_back() {
    let hit = intersect_triangle(v(0, 0, 0), v(10, 0, 0), v(0, 10, 0), v(2, 2, -10), v(0, 0, 1))
        .unwrap();
    assert_eq!((hit.t.num, hit.t.den), (1000, 100));
    assert_eq!((hit.u.num, hit.u.den), (20, 100));
    assert_eq!((hit.v.num, hit.v.den), (20, 100));
    assert_eq!(hit.side, Side::Back);
}

#[test]
fn triangle_missed_beside() {
    assert!(
        intersect_triangle(v(0, 0, 0), v(10, 0, 0), v(0, 10, 0), v(9, 9, 10), v(0, 0, -1))
            .is_none()
    );
    assert!(
        intersect_triangle(v(0, 0, 0), v(10, 0, 0), v(0, 10, 0), v(-1, 2, 10), v(0, 0, -1))
            .is_none()
    );
    assert!(
        intersect_triangle(v(0, 0, 0), v(10, 0, 0), v(0, 10, 0), v(2, -1, 10), v(0, 0, -1))
            .is_none()
    );
}

#[test]
fn triangle_missed_by_parallel_line() {
    assert!(
        intersect_triangle(v(0, 0, 0), v(10, 0, 0), v(0, 10, 0), v(2, 2, 10), v(1, 0, 0))
            .is_none()
    );
}

#[test]
fn triangle_missed_behind_the_origin() {
    assert!(
        intersect_triangle(v(0, 0, 0), v(10, 0, 0), v(0, 10, 0), v(2, 2, 10), v(0, 0, 1))
            .is_none()
    );
}

#[test]
fn triangle_hit_on_its_edge_and_corner() {
    let a = v(0, 0, 0);
    let b = v(10, 0, 0);
    let c = v(0, 10, 0);
    assert!(intersect_triangle(a, b, c, v(5, 5, 10), v(0, 0, -1)).is_some());
    assert!(intersect_triangle(a, b, c, v(0, 0, 10), v(0, 0, -1)).is_some());
    let touch = intersect_triangle(a, b, c, v(3, 3, 0), v(0, 0, -1)).unwrap();
    assert_eq!(touch.t.num, 0);
}

#[test]
fn mesh_grid_is_hit_at_the_known_distance() {
    let mesh = grid_mesh(4);
    let hit = mesh.intersect(v(0, 0, 3 * U), v(0, 0, -U)).unwrap();
    assert!(hit.z.same_value(&Ratio::new(3, 1)));
    assert_eq!(hit.pos, v(0, 0, 0));
    assert_eq!(hit.normal, v(0, 0, U));
    assert_eq!(hit.uv, v(U / 2, U / 2, 0));
    assert_eq!(hit.side, Side::Front);
}

#[test]
fn mesh_grid_interpolates_inside_a_triangle() {
    let mesh = grid_mesh(4);
    let hit = mesh.intersect(v(300, 700, 2 * U), v(0, 0, -1)).unwrap();
    assert!(hit.z.same_value(&Ratio::new(2 * U as i64, 1)));
    assert_eq!(hit.pos, v(300, 700, 0));
    assert_eq!(hit.uv, v((300 + U) / 2, (700 + U) / 2, 0));
    assert_eq!(hit.normal, v(0, 0, U));
}

#[test]
fn mesh_grid_is_missed_beside_and_from_behind() {
    let mesh = grid_mesh(4);
    assert!(mesh.intersect(v(2 * U, 0, 3 * U), v(0, 0, -U)).is_none());
    assert!(mesh.intersect(v(0, 0, 3 * U), v(0, 0, U)).is_none());
    let back = mesh.intersect(v(10, 10, -U), v(0, 0, 1)).unwrap();
    assert_eq!(back.side, Side::Back);
}

#[test]
fn mesh_search_agrees_with_all_triangles() {
    // two sheets above each other: the nearer one is found from either side
    let mut vertices = Vec::new();
    for z in [0, U] {
        vertices.push(v(-U, -U, z));
        vertices.push(v(U, -U, z));
        vertices.push(v(U, U, z));
        vertices.push(v(-U, U, z));
    }
    let triangles = vec![(0, 1, 2), (0, 2, 3), (4, 5, 6), (4, 6, 7)];
    let mesh = Mesh::new(
        vertices,
        triangles.clone(),
        vec![v(0, 0, U)],
        vec![(0, 0, 0); 4],
        vec![v(0, 0, 0)],
        vec![(0, 0, 0); 4],
    )
    .unwrap();
    let down = mesh.intersect(v(100, 50, 3 * U), v(0, 0, -U)).unwrap();
    assert!(down.z.same_value(&Ratio::new(2, 1)));
    assert_eq!(down.pos, v(100, 50, U));
    let up = mesh.intersect(v(100, 50, -3 * U), v(0, 0, U)).unwrap();
    assert!(up.z.same_value(&Ratio::new(3, 1)));
    assert_eq!(up.pos, v(100, 50, 0));
}

#[test]
fn mesh_intersect_is_repeatable() {
    let mesh = grid_mesh(8);
    let first = mesh.intersect(v(123, -456, 2 * U), v(3, 4, -50)).unwrap();
    let second = mesh.intersect(v(123, -456, 2 * U), v(3, 4, -50)).unwrap();
    assert_eq!((first.z.num, first.z.den), (second.z.num, second.z.den));
    assert_eq!(first.pos, second.pos);
    assert_eq!(first.uv, second.uv);
    assert_eq!(first.normal, second.normal);
    assert_eq!(first.side, second.side);
}

#[test]
fn mesh_new_puts_the_box_around_the_vertices() {
    let mesh = grid_mesh(2);
    assert_eq!(mesh.bounding_box, BoundingBox::new(-U, -U, 0, U, U, 0));
    assert_eq!(mesh.bvh.nodes().len(), 2 * 8 - 1);
    assert!(mesh.is_well_formed());
}

#[test]
fn mesh_new_reports_what_is_wrong() {
    let tri = vec![(0usize, 1usize, 2usize)];
    let pts = vec![v(0, 0, 0), v(1, 0, 0), v(0, 1, 0)];
    let one = vec![v(0, 0, U)];
    let same = vec![(0usize, 0usize, 0usize)];
    let err = |r: Result<Mesh, MeshError>| r.err();
    assert_eq!(
        err(Mesh::new(vec![], tri.clone(), one.clone(), same.clone(), one.clone(), same.clone())),
        Some(MeshError::NoVertices)
    );
    assert_eq!(
        err(Mesh::new(pts.clone(), vec![], one.clone(), vec![], one.clone(), vec![])),
        Some(MeshError::NoTriangles)
    );
    assert_eq!(
        err(Mesh::new(pts.clone(), tri.clone(), one.clone(), vec![], one.clone(), same.clone())),
        Some(MeshError::TripleCount)
    );
    assert_eq!(
        err(Mesh::new(
            vec![v(0, 0, 0), v(600_000, 0, 0), v(0, 1, 0)],
            tri.clone(),
            one.clone(),
            same.clone(),
            one.clone(),
            same.clone()
        )),
        Some(MeshError::OutOfRange)
    );
    assert_eq!(
        err(Mesh::new(
            pts.clone(),
            vec![(0, 1, 3)],
            one.clone(),
            same.clone(),
            one.clone(),
            same.clone()
        )),
        Some(MeshError::BadIndex)
    );
    assert_eq!(
        err(Mesh::new(pts.clone(), tri.clone(), one.clone(), vec![(0, 0, 1)], one.clone(), same)),
        Some(MeshError::BadIndex)
    );
    assert!(Mesh::new(pts, tri, one.clone(), vec![(0, 0, 0)], one, vec![(0, 0, 0)]).is_ok());
}

#[test]
fn build_bvh_takes_the_boxes_of_the_triangles() {
    let vertices = [v(0, 0, 0), v(10, 0, 0), v(0, 10, 5), v(-3, 2, 1)];
    let bvh =
        Mesh::build_bvh(&vertices, &[(0, 1, 2)], BoundingBox::new(-3, 0, 0, 10, 10, 5)).unwrap();
    assert_eq!(bvh.nodes()[0].bounding_box(), BoundingBox::new(0, 0, 0, 10, 10, 5));
    assert!(Mesh::build_bvh(&vertices, &[], BoundingBox::new(0, 0, 0, 1, 1, 1)).is_err());
}

#[test]
fn sphere_from_outside_is_hit_in_front() {
    let hit = Geometry::Sphere.intersect(v(0, 0, 5 * U), v(0, 0, -U)).unwrap();
    // the distance to the centre is five and the radius one
    assert!(hit.z.same_value(&Ratio::new(4, 1)));
    assert_eq!(hit.side, Side::Front);
    assert_eq!(hit.pos, v(0, 0, U));
    assert_eq!(hit.normal, v(0, 0, U));
}

#[test]
fn sphere_from_outside_with_a_longer_direction() {
    let hit = Geometry::Sphere.intersect(v(0, 3 * U, 0), v(0, -2 * U, 0)).unwrap();
    assert!(hit.z.same_value(&Ratio::new(1, 1)));
    assert_eq!(hit.side, Side::Front);
    assert_eq!(hit.pos, v(0, U, 0));
}

#[test]
fn sphere_from_inside_is_hit_at_the_back() {
    let hit = Geometry::Sphere.intersect(v(0, 0, 0), v(0, 0, U)).unwrap();
    assert!(hit.z.same_value(&Ratio::new(1, 1)));
    assert_eq!(hit.side, Side::Back);
    assert_eq!(hit.pos, v(0, 0, U));
}

#[test]
fn sphere_parameter_is_rounded_up() {
    let hit = Geometry::Sphere.intersect(v(0, U / 2, 5 * U), v(0, 0, -U)).unwrap();
    assert_eq!((hit.z.num, hit.z.den), (69356585, 16777216));
    assert_eq!(hit.pos, v(0, 2048, 3547));
    assert_eq!(hit.side, Side::Front);
    let inner = Geometry::Sphere.intersect(v(100, 200, 300), v(3, -2, 5)).unwrap();
    assert_eq!((inner.z.num, inner.z.den), (23783, 38));
    assert_eq!(inner.pos, v(1977, -1052, 3429));
    assert_eq!(inner.side, Side::Back);
}

#[test]
fn sphere_is_missed() {
    let s = Geometry::Sphere;
    assert!(s.intersect(v(2 * U, 0, 5 * U), v(0, 0, -U)).is_none());
    assert!(s.intersect(v(U, U, 5 * U), v(0, 0, -U)).is_none());
    assert!(s.intersect(v(0, 0, 5 * U), v(0, 0, U)).is_none());
    assert!(s.intersect(v(0, 0, 5 * U), v(0, 0, 0)).is_none());
    // a line that only touches the sphere
    assert!(s.intersect(v(U, 0, 5 * U), v(0, 0, -U)).is_none());
}

#[test]
fn plane_is_hit_from_either_side() {
    let front = Geometry::Plane.intersect(v(0, 0, 3 * U), v(0, 0, -U)).unwrap();
    assert_eq!((front.z.num, front.z.den), (3 * U as i64, U as i64));
    assert_eq!(front.pos, v(0, 0, 0));
    assert_eq!(front.normal, v(0, 0, U));
    assert_eq!(front.side, Side::Front);
    let back = Geometry::Plane.intersect(v(10, -20, -U), v(0, 0, 2)).unwrap();
    assert_eq!((back.z.num, back.z.den), (U as i64, 2));
    assert_eq!(back.pos, v(10, -20, 0));
    assert_eq!(back.side, Side::Back);
}

#[test]
fn plane_is_hit_at_a_slant() {
    let hit = Geometry::Plane.intersect(v(-U, 0, U), v(1, 0, -1)).unwrap();
    assert_eq!((hit.z.num, hit.z.den), (U as i64, 1));
    assert_eq!(hit.pos, v(0, 0, 0));
    let rounded = Geometry::Plane.intersect(v(0, 0, 5), v(1, 0, -2)).unwrap();
    assert_eq!((rounded.z.num, rounded.z.den), (5, 2));
    assert_eq!(rounded.pos, v(2, 0, 0));
}

#[test]
fn plane_is_missed() {
    let p = Geometry::Plane;
    assert!(p.intersect(v(2 * U, 0, 3 * U), v(0, 0, -U)).is_none());
    assert!(p.intersect(v(U, 0, U), v(0, 0, -1)).is_none());
    assert!(p.intersect(v(0, 0, U), v(0, 0, 1)).is_none());
    assert!(p.intersect(v(0, 0, U), v(1, 0, 0)).is_none());
    assert!(p.intersect(v(0, 0, 0), v(0, 0, -1)).is_none());
}

#[test]
fn shapes_have_their_boxes() {
    assert_eq!(Geometry::Sphere.bounding_box(), BoundingBox::new(-U, -U, -U, U, U, U));
    assert_eq!(Geometry::Plane.bounding_box(), BoundingBox::new(-U, -U, 0, U, U, 0));
    let mesh = Geometry::Mesh(grid_mesh(2));
    assert_eq!(mesh.bounding_box(), BoundingBox::new(-U, -U, 0, U, U, 0));
    assert!(mesh.is_well_formed());
    assert!(mesh.intersect(v(0, 0, U), v(0, 0, -1)).is_some());
}
