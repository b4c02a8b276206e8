use raytracer::geometry::Geometry;
use raytracer::scene::{Light, LightType, Material, Node, Object, Scene};
use raytracer::shading::{add_colors, bias, cosine, light_contribution};
use raytracer::texture::{Texture, TextureData};
use raytracer::transform::{Matrix3, Transform};
use raytracer::vector::{Vec3, COORD_MAX, UNIT};

const U: i32 = UNIT;

fn v(x: i32, y: i32, z: i32) -> Vec3 {
    Vec3::new(x, y, z)
}

fn plain(color: Vec3) -> Texture {
    Texture { data: TextureData::Blank, color, transform: Transform::default() }
}

fn material(diffuse: Vec3, emission: Vec3) -> Material {
    Material {
        diffuse: plain(diffuse),
        specular: plain(v(0, 0, 0)),
        glossiness: 20 * U,
        emission,
        reflection: plain(v(0, 0, 0)),
        reflection_glossiness: 0,
        refraction: plain(v(0, 0, 0)),
        refraction_glossiness: 0,
        refraction_index: U,
        absorption: v(0, 0, 0),
    }
}

fn node(name: &str, geometry: Geometry, scale: i32, translate: Vec3, material: &str) -> Node {
    Node {
        object: Some(Object { geometry, material: material.to_string() }),
        transform: Transform {
            transform: Matrix3 { x: v(scale, 0, 0), y: v(0, scale, 0), z: v(0, 0, scale) },
            translate,
        },
        children: vec![],
        name: name.to_string(),
    }
}

fn scene_of(nodes: Vec<Node>, lights: Vec<Light>) -> Scene {
    Scene {
        nodes,
        materials: vec![
            ("white".to_string(), material(v(U, U, U), v(0, 0, 0))),
            ("glow".to_string(), material(v(U, 0, 0), v(100, 200, 300))),
        ],
        lights,
        background: plain(v(U / 4, U / 8, U / 16)),
        environment: plain(v(0, 0, 0)),
    }
}

fn ambient(intensity: i32) -> Light {
    Light { intensity, color: v(U, U, U), light_type: LightType::Ambient }
}

fn brightness(c: Vec3) -> i64 {
    c.x as i64 + c.y as i64 + c.z as i64
}

#[test]
fn cosine_of_angles() {
    assert_eq!(cosine(v(0, 0, U), v(0, 0, 5)), U);
    assert_eq!(cosine(v(0, 0, 1), v(1, 0, 1)), 2896);
    assert_eq!(cosine(v(0, 0, COORD_MAX), v(COORD_MAX, 0, COORD_MAX)), 2896);
    assert_eq!(cosine(v(0, 0, 3), v(3, 0, 4)), 3276);
    assert_eq!(cosine(v(0, 0, 1), v(1, 0, 0)), 0);
    assert_eq!(cosine(v(0, 0, 1), v(1, 0, -1)), 0);
    assert_eq!(cosine(v(0, 0, 0), v(1, 0, 1)), 0);
    assert_eq!(cosine(v(0, 0, 1), v(0, 0, 0)), 0);
}

#[test]
fn bias_moves_along_the_direction() {
    assert_eq!(bias(v(0, 0, 0), v(0, 0, 100)), v(0, 0, 41));
    assert_eq!(bias(v(10, 20, 30), v(3, 0, -4)), v(40, 20, -11));
    assert_eq!(bias(v(10, 20, 30), v(0, 0, 0)), v(10, 20, 30));
    assert_eq!(bias(v(COORD_MAX, 0, 0), v(1, 0, 0)), v(COORD_MAX, 0, 0));
}

#[test]
fn colours_add_up() {
    assert_eq!(add_colors(v(1, 2, 3), v(10, 20, -30)), v(11, 22, -27));
    assert_eq!(add_colors(v(i32::MAX, i32::MIN, 0), v(1, -1, 0)), v(i32::MAX, i32::MIN, 0));
}

#[test]
fn light_gives_its_share() {
    let white = Light { intensity: 2 * U, color: v(U, U / 2, 0), light_type: LightType::Ambient };
    // twice the light, at half the angle, of which a quarter is seen: a quarter
    assert_eq!(light_contribution(&white, U / 2, 4, 16, v(U, U, U)), v(U / 4, U / 8, 0));
    assert_eq!(light_contribution(&white, U, 1, 1, v(U / 2, U, U)), v(U, U, 0));
    assert_eq!(light_contribution(&white, 0, 1, 1, v(U, U, U)), v(0, 0, 0));
    assert_eq!(light_contribution(&white, U, 0, 16, v(U, U, U)), v(0, 0, 0));
}

#[test]
fn unlit_scene_is_dark_but_for_the_background() {
    let mut rng = rand::thread_rng();
    let scene =
        scene_of(vec![node("ball", Geometry::Sphere, U, v(0, 0, 0), "white")], vec![]);
    assert!(scene.is_well_formed());
    assert_eq!(scene.direct_diffuse(&mut rng, v(0, 0, U), v(0, 0, U), v(U, U, U)), v(0, 0, 0));
    assert_eq!(scene.cast_direct(&mut rng, v(0, 0, 5 * U), v(0, 0, -U), 0, 0).unwrap(), v(0, 0, 0));
    // a ray that hits nothing sees the background
    let missed = scene.cast_direct(&mut rng, v(0, 0, 5 * U), v(0, 0, U), U / 2, U / 2).unwrap();
    assert_eq!(missed, v(U / 4, U / 8, U / 16));
    assert!(brightness(missed) > 0);
}

#[test]
fn ambient_light_falls_on_every_point() {
    let mut rng = rand::thread_rng();
    let scene = scene_of(
        vec![node("ball", Geometry::Sphere, U, v(0, 0, 0), "white")],
        vec![ambient(U), ambient(U / 2)],
    );
    assert_eq!(
        scene.direct_diffuse(&mut rng, v(0, 0, U), v(0, 0, U), v(U, U / 2, 0)),
        v(3 * U / 2, 3 * U / 4, 0)
    );
    assert_eq!(
        scene.direct_diffuse(&mut rng, v(0, 0, -U), v(0, 0, -U), v(U, U / 2, 0)),
        v(3 * U / 2, 3 * U / 4, 0)
    );
}

#[test]
fn sphere_under_ambient_light_is_brighter_than_the_background() {
    let mut rng = rand::thread_rng();
    let mut scene =
        scene_of(vec![node("ball", Geometry::Sphere, U, v(0, 0, 0), "white")], vec![ambient(U)]);
    scene.background = plain(v(0, 0, 0));
    let eye = v(0, 0, 5 * U);
    let middle = scene.cast_direct(&mut rng, eye, v(0, 0, -U), U / 2, U / 2).unwrap();
    let corner = scene.cast_direct(&mut rng, eye, v(U / 2, U / 2, -U), 0, 0).unwrap();
    assert_eq!(middle, v(U, U, U));
    assert_eq!(corner, v(0, 0, 0));
    assert!(brightness(middle) > brightness(corner));
    // in whatever order the pixels are asked for
    assert_eq!(scene.cast_direct(&mut rng, eye, v(U / 2, U / 2, -U), 0, 0).unwrap(), corner);
    assert_eq!(scene.cast_direct(&mut rng, eye, v(0, 0, -U), U / 2, U / 2).unwrap(), middle);
}

#[test]
fn directional_light_is_shadowed() {
    let mut rng = rand::thread_rng();
    // a floor at the height zero, a ball above it, and light from straight above
    let sun =
        Light { intensity: U, color: v(U, U, U), light_type: LightType::Directional(v(0, 0, -U)) };
    let scene = scene_of(
        vec![
            node("floor", Geometry::Plane, 100 * U, v(0, 0, 0), "white"),
            node("ball", Geometry::Sphere, U, v(0, 0, 5 * U), "white"),
        ],
        vec![sun],
    );
    assert!(scene.is_well_formed());
    let up = v(0, 0, U);
    assert_eq!(scene.direct_diffuse(&mut rng, v(0, 0, 0), up, v(U, U, U)), v(0, 0, 0));
    assert_eq!(scene.direct_diffuse(&mut rng, v(3 * U, 0, 0), up, v(U, U, U)), v(U, U, U));
    // on a slope the light is weaker, and from below there is none
    assert_eq!(scene.direct_diffuse(&mut rng, v(3 * U, 0, 0), v(U, 0, U), v(U, U, U)), v(2896, 2896, 2896));
    assert_eq!(scene.direct_diffuse(&mut rng, v(3 * U, 0, 10), v(0, 0, -U), v(U, U, U)), v(0, 0, 0));
    // seen from the side: the shadow of the ball on the floor, and the floor beside it
    let eye = v(20 * U, 0, 2 * U);
    let shadow = scene.cast_direct(&mut rng, eye, v(-20 * U, 0, -2 * U), 0, 0).unwrap();
    let beside = scene.cast_direct(&mut rng, eye, v(-16 * U, 0, -2 * U), 0, 0).unwrap();
    assert_eq!(shadow, v(0, 0, 0));
    assert_eq!(beside, v(U, U, U));
    // and the ball itself, lit from above
    let top = scene.cast_direct(&mut rng, v(0, 0, 20 * U), v(0, 0, -U), 0, 0).unwrap();
    assert_eq!(top, v(U, U, U));
}

#[test]
fn point_light_without_size_casts_a_hard_shadow() {
    let mut rng = rand::thread_rng();
    let lamp = Light {
        intensity: U,
        color: v(U, U, U),
        light_type: LightType::Point { position: v(0, 0, 10 * U), size: 0 },
    };
    let scene = scene_of(
        vec![
            node("floor", Geometry::Plane, 100 * U, v(0, 0, 0), "white"),
            node("ball", Geometry::Sphere, U, v(0, 0, 5 * U), "white"),
        ],
        vec![lamp],
    );
    let up = v(0, 0, U);
    assert_eq!(scene.direct_diffuse(&mut rng, v(0, 0, 0), up, v(U, U, U)), v(0, 0, 0));
    // under the lamp beside the shadow the light falls at a slant
    let lit = scene.direct_diffuse(&mut rng, v(10 * U, 0, 0), up, v(U, U, U));
    assert_eq!(lit, v(2896, 2896, 2896));
}

#[test]
fn area_light_casts_a_soft_shadow() {
    let mut rng = rand::thread_rng();
    let lamp = Light {
        intensity: U,
        color: v(U, U, U),
        light_type: LightType::Point { position: v(0, 0, 10 * U), size: 2 * U },
    };
    let scene = scene_of(
        vec![
            node("floor", Geometry::Plane, 100 * U, v(0, 0, 0), "white"),
            node("ball", Geometry::Sphere, U, v(0, 0, 5 * U), "white"),
        ],
        vec![lamp],
    );
    let up = v(0, 0, U);
    for _ in 0..10 {
        let edge = scene.direct_diffuse(&mut rng, v(2 * U, 0, 0), up, v(U, U, U));
        assert!(0 <= edge.x && edge.x <= U);
        assert_eq!((edge.x, edge.x), (edge.y, edge.z));
    }
    // far from the ball all of the light is seen
    let far = scene.direct_diffuse(&mut rng, v(30 * U, 0, 0), up, v(U, U, U));
    assert!(far.x > 0);
}

#[test]
fn surface_gives_off_its_own_light() {
    let mut rng = rand::thread_rng();
    let scene =
        scene_of(vec![node("ball", Geometry::Sphere, U, v(0, 0, 0), "glow")], vec![ambient(U)]);
    assert_eq!(
        scene.cast_direct(&mut rng, v(0, 0, 5 * U), v(0, 0, -U), 0, 0).unwrap(),
        v(U + 100, 200, 300)
    );
    // from inside the ball the normal is turned towards the ray
    assert_eq!(scene.cast_direct(&mut rng, v(0, 0, 0), v(0, 0, -U), 0, 0).unwrap(), v(U + 100, 200, 300));
}

#[test]
fn point_out_of_reach_of_the_shadow_rays_is_told() {
    let mut rng = rand::thread_rng();
    let sun =
        Light { intensity: U, color: v(U, U, U), light_type: LightType::Directional(v(0, 0, -U)) };
    // a speck of four grid steps at the origin, and a ball far below it
    let nodes = || {
        vec![
            node("speck", Geometry::Sphere, 4, v(0, 0, 0), "white"),
            node("ball", Geometry::Sphere, U, v(0, 0, -5 * U), "white"),
        ]
    };
    let eye = v(100, 0, 100);
    let lit = scene_of(nodes(), vec![sun]);
    assert!(lit.is_well_formed());
    assert!(lit.is_within_reach(eye));
    // the ray passes the speck and hits the ball, from where the speck is out of reach
    assert!(lit.intersect(eye, v(0, 0, -U)).is_some());
    assert!(!lit.can_light(v(100, 0, -4 * U)));
    assert!(lit.can_light(v(100, 0, 100)));
    assert_eq!(lit.cast_direct(&mut rng, eye, v(0, 0, -U), 0, 0), None);
    // a ray that hits nothing, or the speck, sees a colour
    assert!(lit.cast_direct(&mut rng, eye, v(0, 0, U), 0, 0).is_some());
    assert!(lit.cast_direct(&mut rng, v(0, 0, 100), v(0, 0, -U), 0, 0).is_some());
    // ambient light needs no shadow ray
    let dim = scene_of(nodes(), vec![ambient(U)]);
    assert!(dim.can_light(v(100, 0, -4 * U)));
    assert_eq!(dim.cast_direct(&mut rng, eye, v(0, 0, -U), 0, 0), Some(v(U, U, U)));
}

#[test]
fn light_beyond_the_grid_is_refused() {
    let far = Light {
        intensity: U,
        color: v(U, U, U),
        light_type: LightType::Point { position: v(COORD_MAX + 1, 0, 0), size: 0 },
    };
    assert!(!far.is_well_formed());
    assert!(!scene_of(vec![], vec![far]).is_well_formed());
    let negative = Light {
        intensity: U,
        color: v(U, U, U),
        light_type: LightType::Point { position: v(0, 0, 0), size: -1 },
    };
    assert!(!negative.is_well_formed());
    let slanted =
        Light { intensity: U, color: v(U, U, U), light_type: LightType::Directional(v(1, 2, 3)) };
    assert!(slanted.is_well_formed());
}
