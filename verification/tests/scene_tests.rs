use raytracer::geometry::{Geometry};
use raytracer::mesh::{Mesh};
use raytracer::scene::{
    halve, Camera, HitInfo, Light, LightType, Material, Node, Object, Scene, Side,
};
use raytracer::texture::{Texture, TextureData};
use raytracer::transform::{Matrix3, Transform};
use raytracer::vector::{Ratio, Vec3, COORD_MAX, UNIT};

const U: i32 = UNIT;

fn v(x: i32, y: i32, z: i32) -> Vec3 {
    Vec3::new(x, y, z)
}

fn plain(color: Vec3) -> Texture {
    Texture { data: TextureData::Blank, color, transform: Transform::default() }
}

fn matte(color: Vec3) -> Material {
    Material {
        diffuse: plain(color),
        specular: plain(v(0, 0, 0)),
        glossiness: 20 * U,
        emission: v(0, 0, 0),
        reflection: plain(v(0, 0, 0)),
        reflection_glossiness: 0,
        refraction: plain(v(0, 0, 0)),
        refraction_glossiness: 0,
        refraction_index: U,
        absorption: v(0, 0, 0),
    }
}

fn scaled(factor: i32, translate: Vec3) -> Transform {
    Transform {
        transform: Matrix3 { x: v(factor, 0, 0), y: v(0, factor, 0), z: v(0, 0, factor) },
        translate,
    }
}

fn shape(name: &str, geometry: Geometry, transform: Transform, children: Vec<Node>) -> Node {
    Node {
        object: Some(Object { geometry, material: "white".to_string() }),
        transform,
        children,
        name: name.to_string(),
    }
}

fn group(name: &str, transform: Transform, children: Vec<Node>) -> Node {
    Node { object: None, transform, children, name: name.to_string() }
}

fn scene_of(nodes: Vec<Node>) -> Scene {
    Scene {
        nodes,
        materials: vec![("white".to_string(), matte(v(U, U, U)))],
        lights: vec![Light { intensity: U, color: v(U, U, U), light_type: LightType::Ambient }],
        background: plain(v(U / 2, U / 2, U / 2)),
        environment: plain(v(0, 0, 0)),
    }
}

fn found<'a>(hit: Option<(HitInfo, &'a Node)>) -> (HitInfo, &'a str) {
    let (info, node) = hit.unwrap();
    (info, node.name.as_str())
}

#[test]
fn transform_default_is_the_identity() {
    let t = Transform::default();
    assert_eq!(t.transform, Matrix3::one());
    assert_eq!(t.translate, v(0, 0, 0));
    assert!(t.is_invertible());
    assert_eq!(t.to_local_space(v(5, -6, 7)), Some(v(5, -6, 7)));
    assert_eq!(t.from_local_space(v(5, -6, 7)), v(5, -6, 7));
}

#[test]
fn transform_shifts_and_scales() {
    let t = scaled(2 * U, v(10, 20, 30));
    assert_eq!(t.to_local_space(v(10, 20, 30)), Some(v(0, 0, 0)));
    assert_eq!(t.to_local_space(v(14, 20, 25)), Some(v(2, 0, -3)));
    assert_eq!(t.from_local_space(v(2, 0, -3)), v(14, 20, 24));
    assert_eq!(t.from_local_space(v(2, 0, -2)), v(14, 20, 26));
}

#[test]
fn transform_mirrors_and_turns() {
    // a quarter turn about z: x goes to y and y to minus x
    let turn = Transform {
        transform: Matrix3 { x: v(0, U, 0), y: v(-U, 0, 0), z: v(0, 0, U) },
        translate: v(0, 0, 0),
    };
    assert_eq!(turn.from_local_space(v(7, 0, 0)), v(0, 7, 0));
    assert_eq!(turn.to_local_space(v(0, 7, 0)), Some(v(7, 0, 0)));
    assert_eq!(turn.normal_from_local_space(v(U, 0, 0)), v(0, COORD_MAX, 0));
    let mirror = Transform {
        transform: Matrix3 { x: v(-U, 0, 0), y: v(0, U, 0), z: v(0, 0, U) },
        translate: v(0, 0, 0),
    };
    assert!(mirror.is_invertible());
    assert_eq!(mirror.to_local_space(v(3, 4, 5)), Some(v(-3, 4, 5)));
    assert_eq!(mirror.normal_from_local_space(v(1, 0, 0)), v(-COORD_MAX, 0, 0));
}

#[test]
fn transform_of_a_normal_follows_unequal_scale() {
    // stretched threefold along x, a slanted face turns towards y
    let stretch = Transform {
        transform: Matrix3 { x: v(3 * U, 0, 0), y: v(0, U, 0), z: v(0, 0, U) },
        translate: v(0, 0, 0),
    };
    assert_eq!(stretch.normal_from_local_space(v(U, U, 0)), v(174762, COORD_MAX, 0));
    assert_eq!(stretch.normal_from_local_space(v(0, 0, 0)), v(0, 0, 0));
}

#[test]
fn transform_keeps_points_in_range() {
    let big = scaled(1000 * U, v(0, 0, 0));
    assert_eq!(big.from_local_space(v(U, -U, 0)), v(COORD_MAX, -COORD_MAX, 0));
    let small = scaled(1, v(0, 0, 0));
    assert_eq!(small.to_local_space(v(COORD_MAX, 0, 0)), None);
    assert_eq!(small.to_local_space(v(1, 0, 0)), Some(v(U, 0, 0)));
    assert_eq!(small.to_local_space(v(COORD_MAX - 1, 0, 0)), Some(v(i32::MAX - U + 1, 0, 0)));
}

#[test]
fn transform_tells_what_it_cuts_off() {
    let big = scaled(1000 * U, v(0, 0, 0));
    assert_eq!(big.from_local_checked(v(U, -1, 0)), (v(COORD_MAX, -1000, 0), false));
    assert_eq!(big.from_local_checked(v(500, 0, 0)), (v(500_000, 0, 0), true));
    let shift = scaled(U, v(COORD_MAX, 0, 0));
    assert_eq!(shift.from_local_checked(v(0, 0, 0)), (v(COORD_MAX, 0, 0), true));
    assert_eq!(shift.from_local_checked(v(1, 0, 0)), (v(COORD_MAX, 0, 0), false));
}

#[test]
fn transform_without_inverse_is_told() {
    let flat = Transform {
        transform: Matrix3 { x: v(U, 0, 0), y: v(0, U, 0), z: v(U, U, 0) },
        translate: v(0, 0, 0),
    };
    assert!(!flat.is_invertible());
    assert!(!scaled(0, v(0, 0, 0)).is_invertible());
}

#[test]
fn node_takes_the_ray_into_its_frame() {
    let node = shape("ball", Geometry::Sphere, scaled(U, v(0, 0, -10 * U)), vec![]);
    let (hit, name) = found(node.intersect(v(0, 0, 0), v(0, 0, -U)));
    assert_eq!(name, "ball");
    assert!(hit.z.same_value(&Ratio::new(9, 1)));
    assert_eq!(hit.pos, v(0, 0, -9 * U));
    assert_eq!(hit.normal, v(0, 0, COORD_MAX));
    assert_eq!(hit.side, Side::Front);
    assert!(node.intersect(v(0, 0, 0), v(0, U, 0)).is_none());
}

#[test]
fn node_keeps_the_parameter_under_scale() {
    let node = shape("big", Geometry::Sphere, scaled(2 * U, v(0, 0, 0)), vec![]);
    let (hit, _) = found(node.intersect(v(0, 0, 5 * U), v(0, 0, -U)));
    assert!(hit.z.same_value(&Ratio::new(3, 1)));
    assert_eq!(hit.pos, v(0, 0, 2 * U));
}

#[test]
fn node_finds_the_nearest_below_it() {
    let far = shape("far", Geometry::Sphere, scaled(U, v(0, 0, -20 * U)), vec![]);
    let near = shape("near", Geometry::Sphere, scaled(U, v(0, 0, -5 * U)), vec![]);
    let beside = shape("beside", Geometry::Sphere, scaled(U, v(9 * U, 0, -2 * U)), vec![]);
    let root = group("root", scaled(U, v(0, 0, 0)), vec![far, beside, near]);
    let (hit, name) = found(root.intersect(v(0, 0, 0), v(0, 0, -U)));
    assert_eq!(name, "near");
    assert!(hit.z.same_value(&Ratio::new(4, 1)));
    let (back, name) = found(root.intersect(v(0, 0, -30 * U), v(0, 0, U)));
    assert_eq!(name, "far");
    assert!(back.z.same_value(&Ratio::new(9, 1)));
}

#[test]
fn node_prefers_the_earlier_of_equal_hits() {
    let first = shape("first", Geometry::Sphere, scaled(U, v(0, 0, -5 * U)), vec![]);
    let second = shape("second", Geometry::Sphere, scaled(U, v(0, 0, -5 * U)), vec![]);
    let root = group("root", Transform::default(), vec![first, second]);
    let (_, name) = found(root.intersect(v(0, 0, 0), v(0, 0, -U)));
    assert_eq!(name, "first");
    let own = shape(
        "own",
        Geometry::Sphere,
        Transform::default(),
        vec![shape("child", Geometry::Sphere, Transform::default(), vec![])],
    );
    let (_, name) = found(own.intersect(v(0, 0, 5 * U), v(0, 0, -U)));
    assert_eq!(name, "own");
}

#[test]
fn node_composes_the_frames_of_its_parents() {
    let leaf = shape("leaf", Geometry::Sphere, scaled(U, v(0, 0, -4 * U)), vec![]);
    let middle = group("middle", scaled(U, v(0, 0, -4 * U)), vec![leaf]);
    let top = group("top", scaled(2 * U, v(U, 0, 0)), vec![middle]);
    // the sphere has the radius two and stands at (1, 0, -16)
    let (hit, name) = found(top.intersect(v(U, 0, 0), v(0, 0, -U)));
    assert_eq!(name, "leaf");
    assert!(hit.z.same_value(&Ratio::new(14, 1)));
    assert_eq!(hit.pos, v(U, 0, -14 * U));
    assert!(top.intersect(v(4 * U, 0, 0), v(0, 0, -U)).is_none());
}

#[test]
fn node_says_what_is_out_of_its_reach() {
    // in the frame of so small an object the ray starts beyond the range of coordinates
    let speck = shape("speck", Geometry::Sphere, scaled(4, v(0, 0, 0)), vec![]);
    assert!(!speck.is_within_reach(v(0, 0, U)));
    assert!(speck.is_within_reach(v(0, 0, 100)));
    let (hit, _) = found(speck.intersect(v(0, 0, 100), v(0, 0, -1)));
    // the ball has a radius of four grid steps
    assert!(hit.z.same_value(&Ratio::new(96, 1)));
    // a node is within reach only if all nodes below it are
    let group_of_speck = group("g", Transform::default(), vec![speck]);
    assert!(!group_of_speck.is_within_reach(v(0, 0, U)));
    assert!(group_of_speck.is_within_reach(v(0, 0, 100)));
    let scene = scene_of(vec![group_of_speck]);
    assert!(!scene.is_within_reach(v(0, 0, U)));
    assert!(scene.is_within_reach(v(0, 0, -100)));
}

#[test]
fn small_node_is_hit_along_a_long_direction() {
    // a ball of a quarter of the size, two units down a ray whose direction is 64 units long
    let ball = shape("ball", Geometry::Sphere, scaled(U / 4, v(0, 0, 0)), vec![]);
    assert!(ball.is_within_reach(v(0, 0, 2 * U)));
    let (hit, name) = found(ball.intersect(v(0, 0, 2 * U), v(0, 0, -64 * U)));
    assert_eq!(name, "ball");
    assert!(hit.z.same_value(&Ratio::new(7, 256)));
    assert_eq!(hit.pos, v(0, 0, U / 4));
    assert_eq!(hit.side, Side::Front);
    // and below a node that is small itself
    let inner = shape("inner", Geometry::Sphere, scaled(U / 8, v(0, 0, 0)), vec![]);
    let outer = group("outer", scaled(U / 8, v(0, 0, 0)), vec![inner]);
    let (hit, name) = found(outer.intersect(v(0, 0, U), v(0, 0, -64 * U)));
    assert_eq!(name, "inner");
    // the ball has the radius of a sixty-fourth
    assert!(hit.z.same_value(&Ratio::new(63, 64 * 64)));
    assert!(outer.intersect(v(U / 32, 0, U), v(0, 0, -64 * U)).is_none());
}

#[test]
fn ray_parameter_is_halved() {
    let z = halve(Ratio::new(5, 3), 2);
    assert_eq!((z.num, z.den), (5, 12));
    let z = halve(Ratio::new(5, 3), 0);
    assert_eq!((z.num, z.den), (5, 3));
    // a denominator that cannot be doubled stays, and the numerator is halved
    let big = (1i64 << 61) + 1;
    let z = halve(Ratio::new(7, big), 1);
    assert_eq!((z.num, z.den), (3, big));
    let z = halve(Ratio::new(-7, big), 2);
    assert_eq!((z.num, z.den), (-2, big));
    let z = halve(Ratio::new(1, 1 << 60), 3);
    assert_eq!((z.num, z.den), (0, 1 << 62));
}

#[test]
fn node_is_hit_from_far_away() {
    // the end of the direction lies beyond the range of coordinates, the ray does not
    let node = shape("ball", Geometry::Sphere, scaled(U, v(0, 0, 0)), vec![]);
    let far = COORD_MAX - 5;
    let (hit, _) = found(node.intersect(v(0, 0, -far), v(0, 0, COORD_MAX)));
    assert!(hit.z.same_value(&Ratio::new((far - U) as i64, COORD_MAX as i64)));
    assert_eq!(hit.pos, v(0, 0, -U));
    assert!(node.intersect(v(0, 0, far), v(0, 0, COORD_MAX)).is_none());
}

#[test]
fn node_hits_a_mesh() {
    let mesh = Mesh::new(
        vec![v(-U, -U, 0), v(U, -U, 0), v(U, U, 0), v(-U, U, 0)],
        vec![(0, 1, 2), (0, 2, 3)],
        vec![v(0, 0, U)],
        vec![(0, 0, 0); 2],
        vec![v(0, 0, 0), v(U, 0, 0), v(U, U, 0), v(0, U, 0)],
        vec![(0, 1, 2), (0, 2, 3)],
    )
    .unwrap();
    let node = shape("sheet", Geometry::Mesh(mesh), scaled(U, v(0, 0, -3 * U)), vec![]);
    assert!(node.is_well_formed());
    let (hit, name) = found(node.intersect(v(U / 2, 0, 0), v(0, 0, -U)));
    assert_eq!(name, "sheet");
    assert!(hit.z.same_value(&Ratio::new(3, 1)));
    assert_eq!(hit.pos, v(U / 2, 0, -3 * U));
    assert_eq!(hit.uv, v(3 * U / 4, U / 2, 0));
    assert_eq!(hit.normal, v(0, 0, COORD_MAX));
}

#[test]
fn scene_finds_the_nearest_node() {
    let scene = scene_of(vec![
        shape("a", Geometry::Sphere, scaled(U, v(0, 0, -12 * U)), vec![]),
        shape("b", Geometry::Plane, scaled(4 * U, v(0, 0, -6 * U)), vec![]),
        shape("c", Geometry::Sphere, scaled(U, v(0, 0, -6 * U)), vec![]),
    ]);
    assert!(scene.is_well_formed());
    let (hit, name) = found(scene.intersect(v(0, 0, 0), v(0, 0, -U)));
    assert_eq!(name, "c");
    assert!(hit.z.same_value(&Ratio::new(5, 1)));
    let (hit, name) = found(scene.intersect(v(3 * U, 0, 0), v(0, 0, -U)));
    assert_eq!(name, "b");
    assert!(hit.z.same_value(&Ratio::new(6, 1)));
    assert!(scene.intersect(v(0, 0, 0), v(0, 0, U)).is_none());
    assert!(scene_of(vec![]).intersect(v(0, 0, 0), v(0, 0, -U)).is_none());
}

#[test]
fn scene_with_one_sphere_is_hit_in_the_middle_only() {
    let scene = scene_of(vec![shape("ball", Geometry::Sphere, Transform::default(), vec![])]);
    let eye = v(0, 0, 5 * U);
    // the ray through the middle of the image and the ray through its corner
    let middle = v(0, 0, -U);
    let corner = v(U / 2, U / 2, -U);
    let first = scene.intersect(eye, middle);
    assert!(first.is_some());
    assert!(scene.intersect(eye, corner).is_none());
    // the same whatever was asked before
    let again = scene.intersect(eye, middle).unwrap().0;
    let first = first.unwrap().0;
    assert_eq!((first.z.num, first.z.den), (again.z.num, again.z.den));
    assert_eq!(first.pos, again.pos);
    assert_eq!(first.normal, again.normal);
    // what the ray sees where it hits nothing
    assert_eq!(scene.background.sample(v(0, 0, 0)), v(U / 2, U / 2, U / 2));
}

#[test]
fn scene_looks_materials_up_by_name() {
    let mut scene = scene_of(vec![]);
    scene.materials.push(("red".to_string(), matte(v(U, 0, 0))));
    scene.materials.push(("white".to_string(), matte(v(1, 1, 1))));
    assert_eq!(scene.material(&"red".to_string()).unwrap().diffuse.color, v(U, 0, 0));
    assert_eq!(scene.material(&"white".to_string()).unwrap().diffuse.color, v(U, U, U));
    assert!(scene.material(&"blue".to_string()).is_none());
}

#[test]
fn scene_is_checked_before_use() {
    let good = scene_of(vec![group(
        "g",
        Transform::default(),
        vec![shape("s", Geometry::Sphere, Transform::default(), vec![])],
    )]);
    assert!(good.is_well_formed());
    let singular = scene_of(vec![group(
        "g",
        Transform::default(),
        vec![shape("s", Geometry::Sphere, scaled(0, v(0, 0, 0)), vec![])],
    )]);
    assert!(!singular.is_well_formed());
    let mut unnamed = scene_of(vec![shape("s", Geometry::Sphere, Transform::default(), vec![])]);
    unnamed.materials.clear();
    assert!(!unnamed.is_well_formed());
    assert!(!unnamed.nodes[0].is_furnished(&unnamed.materials));
    let mut torn = scene_of(vec![]);
    torn.environment.data = TextureData::Image { pixels: vec![1, 2], width: 1, height: 1 };
    assert!(!torn.is_well_formed());
    let mut dull = scene_of(vec![]);
    dull.materials[0].1.specular.transform = scaled(0, v(0, 0, 0));
    assert!(!dull.is_well_formed());
}

#[test]
fn camera_has_its_defaults() {
    let camera = Camera::default();
    assert_eq!(camera.pos, v(0, 0, 0));
    assert_eq!(camera.dir, v(0, 0, -U));
    assert_eq!(camera.up, v(0, U, 0));
    assert_eq!(camera.fov, 40 * U);
    assert_eq!((camera.img_width, camera.img_height), (800, 600));
    assert_eq!((camera.focaldist, camera.dof), (U, 0));
}
