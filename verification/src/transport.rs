//! The plan of the light transport at a hit: which rays leave the point, how
//! many of each kind, and what budget of bounces they carry.
//!
//! Every ray that leaves a point carries one bounce less than the ray that
//! arrived, and no ray leaves where none is left; so the rays that one ray
//! from the eye can bring about are bounded by the budget it starts with.

use crate::optics::{refract, refraction, Refraction, INDEX_MAX};
use crate::scene::Side;
use crate::texture::Color;
use crate::vector::{Vec3, UNIT};
use vstd::prelude::*;

verus! {

/// Rays of indirect light leave a point in rings of elevation and sectors
/// of azimuth, one ray for every field.
pub const GI_RINGS: u32 = 2;

pub const GI_SECTORS: u32 = 4;

/// The number of rays that carry a mirror image.
pub const REFLECTION_RAYS: u32 = 4;

/// The number of rays that pass through a surface.
pub const REFRACTION_RAYS: u32 = 4;

/// The most rays that leave one point.
pub const BRANCHING: u32 = 16;

/// The rays that leave a point which a ray has hit.
#[derive(Debug, Clone, Copy, PartialEq, Eq, Structural)]
pub struct Plan {
    /// Rays that gather the light from all around.
    pub indirect: u32,
    /// Rays about the direction of the mirror image.
    pub reflected: u32,
    /// Rays about the direction of the refracted ray, which is `through`.
    pub refracted: u32,
    /// The direction of the refracted ray, where there is one.
    pub through: Option<Vec3>,
    /// The share of the light that the surface reflects where it lets
    /// light through: all of it where the light is reflected as a whole.
    pub fresnel: i32,
    /// Whether the light that comes back through the surface has been
    /// absorbed on its way: it has where the ray enters the body.
    pub absorbs: bool,
    /// The bounces that are left for the rays that leave.
    pub bounces: u32,
}

/// Whether a colour has no light in any channel.
pub open spec fn is_black(color: Color) -> bool {
    color.x == 0 && color.y == 0 && color.z == 0
}

/// The rays that leave a point. Without a bounce left none leaves. Else
/// rays of indirect light leave, and rays about the mirror image where the
/// surface reflects or lets light through. Where it lets light through,
/// rays about the refracted ray leave too, unless the light is reflected as
/// a whole, in which case the surface counts as a mirror. All of them carry
/// one bounce less.
pub open spec fn planned(
    bounces: u32,
    reflection: Color,
    refraction: Color,
    vec: Vec3,
    normal: Vec3,
    side: Side,
    index: int,
) -> Plan {
    let idle = Plan {
        indirect: 0,
        reflected: 0,
        refracted: 0,
        through: None,
        fresnel: 0,
        absorbs: false,
        bounces: 0,
    };
    if bounces == 0 {
        idle
    } else if is_black(reflection) && is_black(refraction) {
        Plan { indirect: (GI_RINGS * GI_SECTORS) as u32, bounces: (bounces - 1) as u32, ..idle }
    } else if is_black(refraction) {
        Plan {
            indirect: (GI_RINGS * GI_SECTORS) as u32,
            reflected: REFLECTION_RAYS,
            bounces: (bounces - 1) as u32,
            ..idle
        }
    } else {
        match crate::optics::refraction(vec, normal, side, index) {
            Refraction::Bent { direction, reflected } => Plan {
                indirect: (GI_RINGS * GI_SECTORS) as u32,
                reflected: REFLECTION_RAYS,
                refracted: REFRACTION_RAYS,
                through: Some(direction),
                fresnel: reflected,
                absorbs: side == Side::Front,
                bounces: (bounces - 1) as u32,
            },
            Refraction::TotalReflection => Plan {
                indirect: (GI_RINGS * GI_SECTORS) as u32,
                reflected: REFLECTION_RAYS,
                refracted: 0,
                through: None,
                fresnel: UNIT,
                absorbs: false,
                bounces: (bounces - 1) as u32,
            },
        }
    }
}

fn black(color: Color) -> (r: bool)
    ensures
        r == is_black(color),
{
    color.x == 0 && color.y == 0 && color.z == 0
}

/// Plans the rays that leave a point of a surface with the colours
/// `reflection` and `refraction` of its mirror image and of the light it
/// lets through, for a ray that came in against `vec` with `bounces` left
/// and struck the side `side` of a body with the refraction index `index`.
pub fn plan(
    bounces: u32,
    reflection: Color,
    refraction: Color,
    vec: Vec3,
    normal: Vec3,
    side: Side,
    index: i32,
) -> (r: Plan)
    requires
        vec.in_range(),
        normal.in_range(),
        0 <= index <= INDEX_MAX,
    ensures
        r == planned(bounces, reflection, refraction, vec, normal, side, index as int),
        r.indirect + r.reflected + r.refracted <= BRANCHING,
        bounces == 0 ==> r.indirect + r.reflected + r.refracted == 0,
        bounces > 0 ==> r.bounces == bounces - 1,
{
    let idle = Plan {
        indirect: 0,
        reflected: 0,
        refracted: 0,
        through: None,
        fresnel: 0,
        absorbs: false,
        bounces: 0,
    };
    if bounces == 0 {
        idle
    } else if black(reflection) && black(refraction) {
        Plan { indirect: GI_RINGS * GI_SECTORS, bounces: bounces - 1, ..idle }
    } else if black(refraction) {
        Plan {
            indirect: GI_RINGS * GI_SECTORS,
            reflected: REFLECTION_RAYS,
            bounces: bounces - 1,
            ..idle
        }
    } else {
        match refract(vec, normal, side, index) {
            Refraction::Bent { direction, reflected } => Plan {
                indirect: GI_RINGS * GI_SECTORS,
                reflected: REFLECTION_RAYS,
                refracted: REFRACTION_RAYS,
                through: Some(direction),
                fresnel: reflected,
                absorbs: match side {
                    Side::Front => true,
                    Side::Back => false,
                },
                bounces: bounces - 1,
            },
            Refraction::TotalReflection => Plan {
                indirect: GI_RINGS * GI_SECTORS,
                reflected: REFLECTION_RAYS,
                refracted: 0,
                through: None,
                fresnel: UNIT,
                absorbs: false,
                bounces: bounces - 1,
            },
        }
    }
}

/// The most rays that one ray with `bounces` bounces can bring about,
/// itself among them: every ray brings about at most [`BRANCHING`] rays with
/// one bounce less.
pub open spec fn ray_bound(bounces: nat) -> nat
    decreases bounces,
{
    if bounces == 0 {
        1
    } else {
        1 + BRANCHING as nat * ray_bound((bounces - 1) as nat)
    }
}

/// The rays that leave a point, each with all the rays that it can bring
/// about, are within the bound of the ray that arrived.
pub proof fn lemma_rays_bounded(
    bounces: u32,
    reflection: Color,
    refraction: Color,
    vec: Vec3,
    normal: Vec3,
    side: Side,
    index: int,
)
    ensures
        ({
            let p = planned(bounces, reflection, refraction, vec, normal, side, index);
            1 + (p.indirect + p.reflected + p.refracted) * ray_bound(p.bounces as nat) <= ray_bound(
                bounces as nat,
            )
        }),
{
    let p = planned(bounces, reflection, refraction, vec, normal, side, index);
    let leaving = (p.indirect + p.reflected + p.refracted) as int;
    if bounces > 0 {
        let below = ray_bound((bounces - 1) as nat) as int;
        assert(leaving <= BRANCHING);
        assert(leaving * below <= BRANCHING * below) by (nonlinear_arith)
            requires
                0 <= leaving <= BRANCHING,
                below >= 0,
        ;
    } else {
        assert(leaving * ray_bound(0) == 0) by (nonlinear_arith)
            requires
                leaving == 0,
        ;
    }
}

} // verus!
