use raytracer::geometry::Geometry;
use raytracer::light::{first_in_ball, random_in_ball, SHADOW_SAMPLES};
use raytracer::optics::{fresnel, reflect_ray, refract, refract_ray, Refraction};
use raytracer::scene::{Material, Node, Object, Scene, Side};
use raytracer::texture::{Texture, TextureData};
use raytracer::transform::{Matrix3, Transform};
use raytracer::vector::{Ratio, Vec3, COORD_MAX, UNIT};

const U: i32 = UNIT;
const C: i32 = COORD_MAX;

fn v(x: i32, y: i32, z: i32) -> Vec3 {
    Vec3::new(x, y, z)
}

fn plain(color: Vec3) -> Texture {
    Texture { data: TextureData::Blank, color, transform: Transform::default() }
}

fn ball_at(centre: Vec3, radius: i32) -> Node {
    Node {
        object: Some(Object { geometry: Geometry::Sphere, material: "m".to_string() }),
        transform: Transform {
            transform: Matrix3 { x: v(radius, 0, 0), y: v(0, radius, 0), z: v(0, 0, radius) },
            translate: centre,
        },
        children: vec![],
        name: "ball".to_string(),
    }
}

fn scene_of(nodes: Vec<Node>) -> Scene {
    let material = Material {
        diffuse: plain(v(U, U, U)),
        specular: plain(v(0, 0, 0)),
        glossiness: 0,
        emission: v(0, 0, 0),
        reflection: plain(v(0, 0, 0)),
        reflection_glossiness: 0,
        refraction: plain(v(0, 0, 0)),
        refraction_glossiness: 0,
        refraction_index: U,
        absorption: v(0, 0, 0),
    };
    Scene {
        nodes,
        materials: vec![("m".to_string(), material)],
        lights: vec![],
        background: plain(v(0, 0, 0)),
        environment: plain(v(0, 0, 0)),
    }
}

#[test]
fn reflection_mirrors_at_the_normal() {
    assert_eq!(reflect_ray(v(U, 0, U), v(0, 0, U)), v(-C, 0, C));
    assert_eq!(reflect_ray(v(0, 0, 7), v(0, 0, 3)), v(0, 0, C));
    assert_eq!(reflect_ray(v(3, 4, 0), v(1, 0, 0)), v(393216, -C, 0));
    assert_eq!(reflect_ray(v(0, 0, 0), v(0, 0, U)), v(0, 0, 0));
}

#[test]
fn reflection_twice_gives_the_direction_back() {
    for vec in [v(U, 0, U), v(C, C, C), v(1, -2, 2), v(-C, 0, 1)] {
        for normal in [v(0, 0, U), v(0, 5, 0), v(-3, 0, 0)] {
            let back = reflect_ray(reflect_ray(vec, normal), normal);
            let longest = vec.x.abs().max(vec.y.abs()).max(vec.z.abs()) as i64;
            let scale = |c: i32| (c as i64 * C as i64).div_euclid(longest) as i32;
            assert_eq!(back, v(scale(vec.x), scale(vec.y), scale(vec.z)));
        }
    }
}

#[test]
fn refraction_goes_straight_on_between_equal_media() {
    assert_eq!(refract_ray(v(3, 0, 4), v(0, 0, 1), U, U), Some(v(-393216, 0, -C)));
    assert_eq!(refract_ray(v(3, 0, 4), v(0, 0, 9), 7, 7), Some(v(-393216, 0, -C)));
}

#[test]
fn refraction_goes_straight_on_at_a_right_angle() {
    assert_eq!(refract_ray(v(0, 0, 4), v(0, 0, 1), U, 3 * U), Some(v(0, 0, -C)));
    assert_eq!(refract_ray(v(0, 6, 0), v(0, 2, 0), 3 * U, U), Some(v(0, -C, 0)));
}

#[test]
fn refraction_bends_towards_the_normal_in_the_denser_medium() {
    // the sine of the angle halves: the tangent falls from one to 4096 / 10836
    assert_eq!(refract_ray(v(1, 0, 1), v(0, 0, 1), U, 2 * U), Some(v(-198181, 0, -C)));
}

#[test]
fn refraction_fails_where_all_light_is_reflected() {
    assert_eq!(refract_ray(v(4, 0, 1), v(0, 0, 1), 3 * U / 2, U), None);
    assert!(refract_ray(v(1, 0, 4), v(0, 0, 1), 3 * U / 2, U).is_some());
}

#[test]
fn fresnel_term_grows_towards_grazing_light() {
    // between equal media nothing is reflected but light that grazes the surface
    assert_eq!(fresnel(U, U, U), 0);
    assert_eq!(fresnel(U, U, 0), U);
    // glass against empty space reflects four hundredths of the light that falls straight on it
    assert_eq!(fresnel(U, 3 * U / 2, U), 163);
    assert_eq!(fresnel(3 * U / 2, U, U), 163);
    assert_eq!(fresnel(U, 3 * U / 2, U / 2), 286);
    assert_eq!(fresnel(U, 3 * U / 2, 0), U);
    assert_eq!(fresnel(0, U, U), U);
}

#[test]
fn refraction_is_bent_or_wholly_reflected() {
    let up = v(0, 0, 1);
    let glass = 3 * U / 2;
    // from outside, straight down
    assert_eq!(
        refract(v(0, 0, 5), up, Side::Front, glass),
        Refraction::Bent { direction: v(0, 0, -C), reflected: 163 }
    );
    // from inside at a flat angle all light is reflected, at a steep one it leaves
    assert_eq!(refract(v(4, 0, 1), up, Side::Back, glass), Refraction::TotalReflection);
    assert!(matches!(
        refract(v(1, 0, 4), up, Side::Back, glass),
        Refraction::Bent { .. }
    ));
    // a body of the index one does not bend the ray, and reflects only what
    // Schlick's fifth power leaves: a fifth to the fifth power
    assert_eq!(
        refract(v(3, 0, 4), up, Side::Front, U),
        Refraction::Bent { direction: v(-393216, 0, -C), reflected: 1 }
    );
}

#[test]
fn first_point_in_the_ball_is_picked() {
    // the corner of the cube lies outside the ball, the point on its axis on it
    let points = vec![v(10, 10, 10), v(0, -10, 0), v(1, 2, 3), v(0, 0, 0)];
    assert_eq!(first_in_ball(&points, 10), v(0, -10, 0));
    assert_eq!(first_in_ball(&points, 9), v(1, 2, 3));
    assert_eq!(first_in_ball(&points, 3), v(0, 0, 0));
    assert_eq!(first_in_ball(&vec![v(6, 6, 7), v(11, 0, 0)], 10), v(0, 0, 0));
    assert_eq!(first_in_ball(&vec![v(6, 6, 5)], 10), v(6, 6, 5));
    assert_eq!(first_in_ball(&vec![], 10), v(0, 0, 0));
    assert_eq!(first_in_ball(&vec![v(0, 0, 1), v(0, 0, 0)], 0), v(0, 0, 0));
}

#[test]
fn random_points_differ() {
    let mut rng = rand::thread_rng();
    let first = random_in_ball(&mut rng, 1000);
    let mut differs = false;
    for _ in 0..200 {
        if random_in_ball(&mut rng, 1000) != first {
            differs = true;
        }
    }
    assert!(differs);
}

#[test]
fn random_points_lie_in_the_ball() {
    let mut rng = rand::thread_rng();
    for size in [0, 1, 7, 1000, C] {
        for _ in 0..200 {
            let p = random_in_ball(&mut rng, size);
            let norm2 = (p.x as i64).pow(2) + (p.y as i64).pow(2) + (p.z as i64).pow(2);
            assert!(norm2 <= (size as i64).pow(2));
        }
    }
    assert_eq!(random_in_ball(&mut rng, 0), v(0, 0, 0));
}

#[test]
fn sight_is_blocked_by_what_stands_between() {
    let scene = scene_of(vec![ball_at(v(0, 0, 0), U)]);
    assert!(!scene.can_see(v(0, 0, 5 * U), v(0, 0, -5 * U)));
    assert!(scene.can_see(v(3 * U, 0, 5 * U), v(3 * U, 0, -5 * U)));
    // the ball lies behind the point that is looked at
    assert!(scene.can_see(v(0, 0, 5 * U), v(0, 0, 2 * U)));
    // and behind the point that looks
    assert!(scene.can_see(v(0, 0, 5 * U), v(0, 0, 9 * U)));
}

#[test]
fn sight_reaches_across_the_whole_grid() {
    let empty = scene_of(vec![]);
    assert!(empty.can_see(v(-C, 0, 0), v(C, 0, 0)));
    let scene = scene_of(vec![ball_at(v(0, 0, 0), U)]);
    assert!(!scene.can_see(v(-C, 0, 0), v(C, 0, 0)));
    assert!(!scene.can_see(v(-C, 100, -50), v(C, -100, 0)));
    assert!(scene.can_see(v(-C, 2 * U, 0), v(C, 2 * U, 0)));
}

#[test]
fn occlusion_heeds_the_limit() {
    let scene = scene_of(vec![ball_at(v(0, 0, 0), U)]);
    let from = v(0, 0, 5 * U);
    let down = v(0, 0, -U);
    // the ball is hit at the parameter four
    assert!(scene.occluded(from, down, None));
    assert!(scene.occluded(from, down, Some(Ratio::new(5, 1))));
    assert!(scene.occluded(from, down, Some(Ratio::new(9, 2))));
    assert!(!scene.occluded(from, down, Some(Ratio::new(4, 1))));
    assert!(!scene.occluded(from, down, Some(Ratio::new(3, 1))));
    assert!(!scene.occluded(from, v(0, 0, U), None));
}

#[test]
fn seen_points_are_counted() {
    let scene = scene_of(vec![ball_at(v(0, 0, 0), U)]);
    let from = v(0, 0, 5 * U);
    let targets = vec![
        v(0, 0, -5 * U),
        v(3 * U, 0, -5 * U),
        v(100, 100, -5 * U),
        v(0, 3 * U, 0),
        v(0, 0, 3 * U),
    ];
    assert_eq!(scene.count_seen(from, &targets), 3);
    assert_eq!(scene.count_seen(from, &vec![]), 0);
}

#[test]
fn light_without_size_is_seen_as_a_whole_or_not() {
    let mut rng = rand::thread_rng();
    let scene = scene_of(vec![ball_at(v(0, 0, 0), U)]);
    assert_eq!(scene.soft_shadow(&mut rng, v(0, 0, 5 * U), v(0, 0, -5 * U), 0), 0);
    assert_eq!(scene.soft_shadow(&mut rng, v(0, 0, 5 * U), v(4 * U, 0, -5 * U), 0), SHADOW_SAMPLES);
}

#[test]
fn area_light_is_seen_in_part() {
    let mut rng = rand::thread_rng();
    let scene = scene_of(vec![ball_at(v(0, 0, 0), U)]);
    // far beside the ball the whole light is seen, behind it nothing
    assert_eq!(
        scene.soft_shadow(&mut rng, v(20 * U, 0, 5 * U), v(20 * U, 0, -5 * U), U),
        SHADOW_SAMPLES
    );
    assert_eq!(scene.soft_shadow(&mut rng, v(0, 0, 2 * U), v(0, 0, -50 * U), U / 8), 0);
    // at the edge of the shadow some of it
    for _ in 0..20 {
        let seen = scene.soft_shadow(&mut rng, v(0, 0, 5 * U), v(2 * U, 0, -5 * U), 2 * U);
        assert!(seen <= SHADOW_SAMPLES);
    }
}
