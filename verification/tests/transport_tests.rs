use raytracer::scene::Side;
use raytracer::transport::{
    plan, Plan, BRANCHING, GI_RINGS, GI_SECTORS, REFLECTION_RAYS, REFRACTION_RAYS,
};
use raytracer::vector::{Vec3, COORD_MAX, UNIT};

const U: i32 = UNIT;

fn v(x: i32, y: i32, z: i32) -> Vec3 {
    Vec3::new(x, y, z)
}

const BLACK: Vec3 = Vec3 { x: 0, y: 0, z: 0 };
const WHITE: Vec3 = Vec3 { x: U, y: U, z: U };

fn idle() -> Plan {
    Plan {
        indirect: 0,
        reflected: 0,
        refracted: 0,
        through: None,
        fresnel: 0,
        absorbs: false,
        bounces: 0,
    }
}

#[test]
fn no_ray_leaves_without_a_bounce() {
    let up = v(0, 0, U);
    assert_eq!(plan(0, WHITE, WHITE, v(0, 0, 5), up, Side::Front, 3 * U / 2), idle());
    assert_eq!(plan(0, BLACK, BLACK, v(0, 0, 5), up, Side::Back, U), idle());
}

#[test]
fn matte_surface_gathers_indirect_light_only() {
    let p = plan(3, BLACK, BLACK, v(1, 0, 5), v(0, 0, U), Side::Front, U);
    assert_eq!(p, Plan { indirect: GI_RINGS * GI_SECTORS, bounces: 2, ..idle() });
}

#[test]
fn mirror_sends_rays_about_its_image() {
    let p = plan(3, v(1, 0, 0), BLACK, v(1, 0, 5), v(0, 0, U), Side::Front, U);
    assert_eq!(
        p,
        Plan {
            indirect: GI_RINGS * GI_SECTORS,
            reflected: REFLECTION_RAYS,
            bounces: 2,
            ..idle()
        }
    );
}

#[test]
fn glass_lets_light_through_and_absorbs_on_the_way_in() {
    let glass = 3 * U / 2;
    let into = plan(2, BLACK, WHITE, v(0, 0, 5), v(0, 0, U), Side::Front, glass);
    assert_eq!(
        into,
        Plan {
            indirect: GI_RINGS * GI_SECTORS,
            reflected: REFLECTION_RAYS,
            refracted: REFRACTION_RAYS,
            through: Some(v(0, 0, -COORD_MAX)),
            fresnel: 163,
            absorbs: true,
            bounces: 1,
        }
    );
    let out = plan(1, BLACK, WHITE, v(0, 0, 5), v(0, 0, U), Side::Back, glass);
    assert_eq!(out.through, Some(v(0, 0, -COORD_MAX)));
    assert!(!out.absorbs);
    assert_eq!(out.bounces, 0);
}

#[test]
fn light_that_cannot_leave_is_reflected_as_a_whole() {
    let p = plan(2, BLACK, WHITE, v(4, 0, 1), v(0, 0, U), Side::Back, 3 * U / 2);
    assert_eq!(
        p,
        Plan {
            indirect: GI_RINGS * GI_SECTORS,
            reflected: REFLECTION_RAYS,
            refracted: 0,
            through: None,
            fresnel: U,
            absorbs: false,
            bounces: 1,
        }
    );
}

#[test]
fn rays_stay_within_the_branching() {
    for bounces in 0..4 {
        for reflection in [BLACK, WHITE] {
            for refraction in [BLACK, WHITE] {
                for side in [Side::Front, Side::Back] {
                    let p =
                        plan(bounces, reflection, refraction, v(3, 1, 2), v(0, 0, U), side, 2 * U);
                    assert!(p.indirect + p.reflected + p.refracted <= BRANCHING);
                    if bounces == 0 {
                        assert_eq!(p.indirect + p.reflected + p.refracted, 0);
                    } else {
                        assert_eq!(p.bounces, bounces - 1);
                    }
                }
            }
        }
    }
}
