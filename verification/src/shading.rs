//! The diffuse light that falls on a point straight from the lights of a
//! scene.

use crate::arith::{
    floor_div, floor_sqrt, isqrt, lemma_mul_bound, lemma_quotient_between, longest, magnitude,
};
use crate::light::{line_of_sight, SHADOW_SAMPLES, sight_line};
use crate::scene::{HitView, Light, LightType, Material, material_index, Node, Scene, Side};
use crate::texture::{Color, tint, tinted};
use crate::transform::{keep_in_range, kept_in_range};
use crate::vector::{COORD_MAX, UNIT, Vec3};
use vstd::prelude::*;

verus! {

/// How far a shadow ray starts from the surface, along its direction, so
/// that it does not hit the surface it starts from: a hundredth of a unit.
pub const BIAS: i32 = 41;

/// The cosine of the angle between the normal and the direction to the
/// light, as a fixed-point number, or zero where the light stands behind
/// the surface: the square root, rounded down, of the square of the scalar
/// product over the product of the squared lengths.
pub open spec fn lambert(normal: Vec3, to_light: Vec3) -> int {
    let along = normal.dot(to_light);
    let lengths = normal.norm2() * to_light.norm2();
    if along <= 0 || lengths <= 0 {
        0
    } else {
        floor_sqrt(((UNIT * UNIT) * (along * along)) / lengths)
    }
}

/// Computes the cosine of the angle between the normal and the direction to
/// the light.
pub fn cosine(normal: Vec3, to_light: Vec3) -> (r: i32)
    requires
        normal.in_range(),
        to_light.in_range(),
    ensures
        r == lambert(normal, to_light),
        0 <= r <= UNIT,
{
    proof {
        crate::geometry::lemma_dot_bound(normal, to_light);
        crate::geometry::lemma_dot_bound(normal, normal);
        crate::geometry::lemma_dot_bound(to_light, to_light);
        crate::geometry_laws::lemma_norm2(normal);
        crate::geometry_laws::lemma_norm2(to_light);
        crate::geometry_laws::lemma_lagrange(normal, to_light);
    }
    let along: i128 = normal.dot_product(&to_light);
    let nn: i128 = normal.dot_product(&normal);
    let ll: i128 = to_light.dot_product(&to_light);
    proof {
        lemma_mul_bound(nn as int, ll as int, 0xc0_0000_0000, 0xc0_0000_0000);
        lemma_mul_bound(along as int, along as int, 0xc0_0000_0000, 0xc0_0000_0000);
        assert(nn * ll >= 0 && along * along >= 0) by (nonlinear_arith)
            requires
                nn >= 0,
                ll >= 0,
        ;
        // the square of the scalar product is no more than the product of
        // the squared lengths
        let cross = normal.cross(to_light);
        assert(cross.0 * cross.0 >= 0 && cross.1 * cross.1 >= 0 && cross.2 * cross.2 >= 0)
            by (nonlinear_arith);
        assert(along * along <= nn * ll);
    }
    let lengths: i128 = nn * ll;
    if along <= 0 || lengths <= 0 {
        return 0;
    }
    let square: i128 = along * along;
    proof {
        assert(UNIT * UNIT == 0x100_0000) by (nonlinear_arith)
            requires
                UNIT == 4096,
        ;
        lemma_mul_bound(0x100_0000, square as int, 0x100_0000, 0x9000_0000_0000_0000_0000);
        assert(0 <= 0x100_0000 * square <= 0x100_0000 * lengths) by (nonlinear_arith)
            requires
                0 <= square <= lengths,
        ;
        lemma_quotient_between(0x100_0000 * square, lengths as int, 0, 0x100_0000);
    }
    let ratio: i128 = (0x100_0000 * square) / lengths;
    let root: i64 = isqrt(ratio);
    proof {
        assert(4097int * 4097int > 0x100_0000) by (nonlinear_arith);
        crate::arith::lemma_square_order(root as int, 4096);
    }
    root as i32
}

/// One coordinate of a point moved by [`BIAS`] along a direction whose
/// longest component is `longest`.
pub open spec fn biased_coordinate(p: int, d: int, longest: int) -> int {
    kept_in_range(p + (d * BIAS) / longest)
}

/// The point `pos` moved by [`BIAS`] along `dir`, kept within the range of
/// coordinates: where a shadow ray along `dir` starts. The distance is
/// measured along the longest component of `dir`.
pub open spec fn biased(pos: Vec3, dir: Vec3) -> Vec3 {
    let m = longest((dir.x as int, dir.y as int, dir.z as int));
    if m == 0 {
        pos
    } else {
        Vec3 {
            x: biased_coordinate(pos.x as int, dir.x as int, m) as i32,
            y: biased_coordinate(pos.y as int, dir.y as int, m) as i32,
            z: biased_coordinate(pos.z as int, dir.z as int, m) as i32,
        }
    }
}

fn abs_grid(x: i32) -> (r: i64)
    ensures
        r == magnitude(x as int),
{
    if x < 0 {
        -(x as i64)
    } else {
        x as i64
    }
}

fn bias_axis(p: i32, d: i32, m: i64) -> (r: i32)
    requires
        0 < m <= 0x8000_0000,
        -m <= d <= m,
    ensures
        r == biased_coordinate(p as int, d as int, m as int),
        -COORD_MAX <= r <= COORD_MAX,
{
    proof {
        assert(BIAS == 41);
        assert(-BIAS * m <= d * BIAS <= BIAS * m) by (nonlinear_arith)
            requires
                -m <= d <= m,
                BIAS == 41,
        ;
        lemma_quotient_between(d * BIAS, m as int, -BIAS as int, BIAS as int);
    }
    let moved: i128 = floor_div((d as i128) * (BIAS as i128), m as i128);
    keep_in_range(p as i128 + moved)
}

/// Moves a point by [`BIAS`] along a direction.
pub fn bias(pos: Vec3, dir: Vec3) -> (r: Vec3)
    requires
        pos.in_range(),
    ensures
        r == biased(pos, dir),
        r.in_range(),
{
    let a: i64 = abs_grid(dir.x);
    let b: i64 = abs_grid(dir.y);
    let c: i64 = abs_grid(dir.z);
    let m: i64 = if a >= b && a >= c {
        a
    } else if b >= c {
        b
    } else {
        c
    };
    if m == 0 {
        pos
    } else {
        Vec3 {
            x: bias_axis(pos.x, dir.x, m),
            y: bias_axis(pos.y, dir.y, m),
            z: bias_axis(pos.z, dir.z, m),
        }
    }
}

/// A number kept within the numbers of the grid.
pub open spec fn saturated(x: int) -> int {
    if x < i32::MIN {
        i32::MIN as int
    } else if x > i32::MAX {
        i32::MAX as int
    } else {
        x
    }
}

fn saturate(x: i128) -> (r: i32)
    ensures
        r == saturated(x as int),
{
    if x < i32::MIN as i128 {
        i32::MIN
    } else if x > i32::MAX as i128 {
        i32::MAX
    } else {
        x as i32
    }
}

/// The share of its intensity that a light gives to a point: the intensity
/// times the cosine of the angle at which the light falls, times the part of
/// the light that the point sees.
pub open spec fn light_share(intensity: int, cosine: int, seen: int, total: int) -> int {
    saturated((intensity * cosine * seen) / (UNIT * total))
}

/// The sum of two colours, channel by channel.
pub open spec fn color_sum(a: Color, b: Color) -> Color {
    Vec3 {
        x: saturated(a.x + b.x) as i32,
        y: saturated(a.y + b.y) as i32,
        z: saturated(a.z + b.z) as i32,
    }
}

/// Adds two colours.
pub fn add_colors(a: Color, b: Color) -> (r: Color)
    ensures
        r == color_sum(a, b),
{
    Vec3 {
        x: saturate(a.x as i128 + b.x as i128),
        y: saturate(a.y as i128 + b.y as i128),
        z: saturate(a.z as i128 + b.z as i128),
    }
}

/// What a light of the colour `color` gives to a surface of the colour
/// `diffuse` when the share `share` of its intensity arrives.
pub open spec fn lit(color: Color, share: int, diffuse: Color) -> Color {
    tinted(tinted(Vec3 { x: share as i32, y: share as i32, z: share as i32 }, color), diffuse)
}

/// Computes what a light gives to a surface of the colour `diffuse` on
/// which it falls at an angle with the cosine `cosine`, where `seen` of
/// `total` shadow rays have reached the light.
pub fn light_contribution(light: &Light, cosine: i32, seen: usize, total: usize, diffuse: Color) -> (r:
    Color)
    requires
        0 <= cosine <= UNIT,
        seen <= total,
        0 < total,
    ensures
        r == lit(
            light.color,
            light_share(light.intensity as int, cosine as int, seen as int, total as int),
            diffuse,
        ),
{
    proof {
        assert(UNIT == 4096);
        lemma_mul_bound(light.intensity as int, cosine as int, 0x8000_0000, 4096);
        lemma_mul_bound(
            light.intensity * cosine,
            seen as int,
            0x800_0000_0000,
            0x1_0000_0000_0000_0000,
        );
        lemma_mul_bound(UNIT as int, total as int, 4096, 0x1_0000_0000_0000_0000);
        assert(UNIT * total > 0) by (nonlinear_arith)
            requires
                UNIT == 4096,
                total > 0,
        ;
    }
    let arrived: i128 = (light.intensity as i128) * (cosine as i128) * (seen as i128);
    let share: i32 = saturate(floor_div(arrived, (UNIT as i128) * (total as i128)));
    tint(tint(Vec3 { x: share, y: share, z: share }, light.color), diffuse)
}

/// The vector that points the other way.
pub open spec fn negated(v: Vec3) -> Vec3 {
    Vec3 { x: (-v.x) as i32, y: (-v.y) as i32, z: (-v.z) as i32 }
}

fn negate(v: Vec3) -> (r: Vec3)
    requires
        v.in_range(),
    ensures
        r == negated(v),
        r.in_range(),
{
    Vec3 { x: -v.x, y: -v.y, z: -v.z }
}

/// No light gives anything where its light falls along the surface or from
/// behind it, whatever is seen of it.
pub proof fn lemma_no_share(intensity: int, seen: int, total: int)
    requires
        total > 0,
    ensures
        light_share(intensity, 0, seen, total) == 0,
{
    assert(intensity * 0 * seen == 0) by (nonlinear_arith);
    assert(UNIT * total > 0) by (nonlinear_arith)
        requires
            total > 0,
    ;
}

impl Scene {
    /// No light of the scene has a size: every light is seen as a whole or
    /// not at all, and nothing is left to chance.
    pub open spec fn hard_lit(&self) -> bool {
        forall|i: int|
            0 <= i < self.lights@.len() ==> ((#[trigger] self.lights@[i]).light_type matches LightType::Point {
                size,
                ..
            } ==> size == 0)
    }

    /// How a light without size falls on a point: the cosine of the angle
    /// between the normal and the direction to the light, and how many
    /// shadow rays of how many reach the light. Ambient light falls in full
    /// on every point. The shadow ray towards a light infinitely far away
    /// must hit nothing; the shadow rays towards a point light must reach
    /// the place of the light.
    pub open spec fn light_falls(&self, light: Light, pos: Vec3, normal: Vec3) -> (int, int, int) {
        match light.light_type {
            LightType::Ambient => (UNIT as int, 1, 1),
            LightType::Directional(direction) => {
                let to_light = negated(direction);
                (
                    lambert(normal, to_light),
                    if self.blocked(biased(pos, to_light), to_light, None) {
                        0
                    } else {
                        1
                    },
                    1,
                )
            },
            LightType::Point { position, size } => {
                let to_light = sight_line(pos, position).0;
                (
                    lambert(normal, to_light),
                    if self.sees(biased(pos, to_light), position) {
                        SHADOW_SAMPLES as int
                    } else {
                        0
                    },
                    SHADOW_SAMPLES as int,
                )
            },
        }
    }

    /// Where the shadow rays towards a light start for the point `pos`: a
    /// little off the point, towards the light.
    pub open spec fn shadow_origin(light: Light, pos: Vec3) -> Vec3 {
        match light.light_type {
            LightType::Ambient => pos,
            LightType::Directional(direction) => biased(pos, negated(direction)),
            LightType::Point { position, .. } => biased(pos, sight_line(pos, position).0),
        }
    }

    /// Shadow rays can be cast from the point `pos` towards the light:
    /// ambient light needs none, and for the others their origin is within
    /// reach.
    pub open spec fn light_reaches(&self, light: Light, pos: Vec3) -> bool {
        light.light_type is Ambient || self.reaches(Self::shadow_origin(light, pos))
    }

    /// Shadow rays can be cast from the point `pos` towards every light.
    pub open spec fn lights_reach(&self, pos: Vec3) -> bool {
        forall|i: int|
            0 <= i < self.lights@.len() ==> self.light_reaches(#[trigger] self.lights@[i], pos)
    }

    /// What a light gives to a point of a surface of the colour `diffuse`
    /// when `seen` of its shadow rays reach it.
    pub open spec fn light_gives_with(
        &self,
        light: Light,
        pos: Vec3,
        normal: Vec3,
        diffuse: Color,
        seen: int,
    ) -> Color {
        let falls = self.light_falls(light, pos, normal);
        lit(light.color, light_share(light.intensity as int, falls.0, seen, falls.2), diffuse)
    }

    /// What a light without size gives to a point of a surface of the
    /// colour `diffuse`.
    pub open spec fn light_gives(&self, light: Light, pos: Vec3, normal: Vec3, diffuse: Color) -> Color {
        self.light_gives_with(light, pos, normal, diffuse, self.light_falls(light, pos, normal).1)
    }

    /// `seen` can be the numbers of shadow rays that reach the lights from
    /// the point `pos`: one number for every light, none above the number
    /// of rays cast towards that light.
    pub open spec fn can_be_seen(&self, seen: Seq<int>, pos: Vec3, normal: Vec3) -> bool {
        &&& seen.len() == self.lights@.len()
        &&& forall|i: int|
            0 <= i < seen.len() ==> 0 <= #[trigger] seen[i] <= self.light_falls(
                self.lights@[i],
                pos,
                normal,
            ).2
    }

    /// What the first `n` lights give together to a point of a surface of
    /// the colour `diffuse` when `seen[i]` shadow rays reach light `i`.
    pub open spec fn diffuse_light_with(
        &self,
        n: nat,
        seen: Seq<int>,
        pos: Vec3,
        normal: Vec3,
        diffuse: Color,
    ) -> Color
        decreases n,
    {
        if n == 0 || n > self.lights@.len() {
            Vec3 { x: 0, y: 0, z: 0 }
        } else {
            color_sum(
                self.diffuse_light_with((n - 1) as nat, seen, pos, normal, diffuse),
                self.light_gives_with(self.lights@[n - 1], pos, normal, diffuse, seen[n - 1]),
            )
        }
    }

    /// What the first `n` lights give together to a point of a surface of
    /// the colour `diffuse`, in a scene without area lights.
    pub open spec fn diffuse_light(&self, n: nat, pos: Vec3, normal: Vec3, diffuse: Color) -> Color
        decreases n,
    {
        if n == 0 || n > self.lights@.len() {
            Vec3 { x: 0, y: 0, z: 0 }
        } else {
            color_sum(
                self.diffuse_light((n - 1) as nat, pos, normal, diffuse),
                self.light_gives(self.lights@[n - 1], pos, normal, diffuse),
            )
        }
    }

    /// Finds how a light falls on the point `pos` of a surface with the
    /// normal `normal`: the cosine of the angle between the normal and the
    /// direction to the light, and how many shadow rays of how many reach
    /// the light. Shadow rays start a little off the surface, and none is
    /// cast where the light falls from behind.
    pub fn light_arrives(
        &self,
        rng: &mut rand::rngs::ThreadRng,
        light: &Light,
        pos: Vec3,
        normal: Vec3,
    ) -> (r: (i32, usize, usize))
        requires
            self.wf(),
            light.wf(),
            self.light_reaches(*light, pos),
            pos.in_range(),
            normal.in_range(),
        ensures
            0 <= r.0 <= UNIT,
            r.1 <= r.2,
            0 < r.2 <= SHADOW_SAMPLES,
            r.0 == self.light_falls(*light, pos, normal).0,
            r.2 == self.light_falls(*light, pos, normal).2,
            r.0 == 0 ==> r.1 == 0,
            (light.light_type matches LightType::Point { size, .. } ==> size == 0) && r.0 > 0
                ==> r.1 == self.light_falls(*light, pos, normal).1,
            light.light_type matches LightType::Point { position, size } ==> r.0 > 0
                ==> self.sampled(Self::shadow_origin(*light, pos), position, size as int, r.1 as int),
    {
        match light.light_type {
            LightType::Ambient => (UNIT, 1, 1),
            LightType::Directional(direction) => {
                let to_light = negate(direction);
                let falls = cosine(normal, to_light);
                let seen: usize = if falls == 0 {
                    0
                } else if self.occluded(bias(pos, to_light), to_light, None) {
                    0
                } else {
                    1
                };
                (falls, seen, 1)
            },
            LightType::Point { position, size } => {
                let (to_light, _) = line_of_sight(pos, position);
                let falls = cosine(normal, to_light);
                let seen: usize = if falls == 0 {
                    0
                } else {
                    self.soft_shadow(rng, bias(pos, to_light), position, size)
                };
                (falls, seen, SHADOW_SAMPLES)
            },
        }
    }

    /// Computes what one light gives to the point `pos` of a surface with
    /// the normal `normal` and the colour `diffuse`.
    pub fn light_on(
        &self,
        rng: &mut rand::rngs::ThreadRng,
        light: &Light,
        pos: Vec3,
        normal: Vec3,
        diffuse: Color,
    ) -> (r: Color)
        requires
            self.wf(),
            light.wf(),
            self.light_reaches(*light, pos),
            pos.in_range(),
            normal.in_range(),
        ensures
            (light.light_type matches LightType::Point { size, .. } ==> size == 0) ==> r
                == self.light_gives(*light, pos, normal, diffuse),
            exists|seen: int|
                0 <= seen <= self.light_falls(*light, pos, normal).2 && r
                    == #[trigger] self.light_gives_with(*light, pos, normal, diffuse, seen),
    {
        let (falls, seen, total) = self.light_arrives(rng, light, pos, normal);
        proof {
            lemma_no_share(light.intensity as int, seen as int, total as int);
            lemma_no_share(
                light.intensity as int,
                self.light_falls(*light, pos, normal).1,
                total as int,
            );
        }
        let given = light_contribution(light, falls, seen, total, diffuse);
        assert(given == self.light_gives_with(*light, pos, normal, diffuse, seen as int));
        given
    }

    /// Where the shadow rays towards a light start for the point `pos`.
    pub fn origin_of_shadow(light: &Light, pos: Vec3) -> (r: Vec3)
        requires
            light.wf(),
            pos.in_range(),
        ensures
            r == Self::shadow_origin(*light, pos),
            r.in_range(),
    {
        match light.light_type {
            LightType::Ambient => pos,
            LightType::Directional(direction) => bias(pos, negate(direction)),
            LightType::Point { position, .. } => {
                let (to_light, _) = line_of_sight(pos, position);
                bias(pos, to_light)
            },
        }
    }

    /// Whether shadow rays can be cast from the point `pos` towards every
    /// light of the scene.
    pub fn can_light(&self, pos: Vec3) -> (r: bool)
        requires
            self.wf(),
            pos.in_range(),
        ensures
            r == self.lights_reach(pos),
    {
        let mut i: usize = 0;
        while i < self.lights.len()
            invariant
                self.wf(),
                pos.in_range(),
                i <= self.lights@.len(),
                forall|k: int| 0 <= k < i ==> self.light_reaches(#[trigger] self.lights@[k], pos),
            decreases self.lights@.len() - i,
        {
            let light = &self.lights[i];
            let reached = match light.light_type {
                LightType::Ambient => true,
                _ => self.is_within_reach(Self::origin_of_shadow(light, pos)),
            };
            if !reached {
                assert(!self.light_reaches(self.lights@[i as int], pos));
                return false;
            }
            i += 1;
        }
        true
    }

    /// Computes the diffuse light that falls straight from the lights of the
    /// scene on the point `pos` of a surface with the normal `normal` and
    /// the colour `diffuse`: the sum of what the lights give, each by the
    /// number of its shadow rays that reach it. Without lights there is
    /// none.
    pub fn direct_diffuse(
        &self,
        rng: &mut rand::rngs::ThreadRng,
        pos: Vec3,
        normal: Vec3,
        diffuse: Color,
    ) -> (r: Color)
        requires
            self.wf(),
            self.lights_reach(pos),
            pos.in_range(),
            normal.in_range(),
        ensures
            self.hard_lit() ==> r == self.diffuse_light(self.lights@.len(), pos, normal, diffuse),
            self.lights@.len() == 0 ==> r == (Vec3 { x: 0, y: 0, z: 0 }),
            exists|seen: Seq<int>|
                self.can_be_seen(seen, pos, normal) && r == #[trigger] self.diffuse_light_with(
                    self.lights@.len(),
                    seen,
                    pos,
                    normal,
                    diffuse,
                ),
    {
        let mut sum: Color = Vec3 { x: 0, y: 0, z: 0 };
        let mut i: usize = 0;
        let ghost mut seen: Seq<int> = Seq::new(self.lights@.len(), |k: int| 0int);
        while i < self.lights.len()
            invariant
                self.wf(),
                self.lights_reach(pos),
                pos.in_range(),
                normal.in_range(),
                i <= self.lights@.len(),
                self.can_be_seen(seen, pos, normal),
                self.hard_lit() ==> sum == self.diffuse_light(i as nat, pos, normal, diffuse),
                sum == self.diffuse_light_with(i as nat, seen, pos, normal, diffuse),
            decreases self.lights@.len() - i,
        {
            let given = self.light_on(rng, &self.lights[i], pos, normal, diffuse);
            proof {
                let light = self.lights@[i as int];
                let one = choose|one: int|
                    0 <= one <= self.light_falls(light, pos, normal).2 && given
                        == #[trigger] self.light_gives_with(light, pos, normal, diffuse, one);
                let before = seen;
                seen = seen.update(i as int, one);
                self.lemma_seen_so_far(i as nat, before, seen, pos, normal, diffuse);
            }
            sum = add_colors(sum, given);
            i += 1;
        }
        sum
    }

    /// What the first lights give does not depend on what is seen of the
    /// later ones.
    pub proof fn lemma_seen_so_far(
        &self,
        n: nat,
        first: Seq<int>,
        second: Seq<int>,
        pos: Vec3,
        normal: Vec3,
        diffuse: Color,
    )
        requires
            forall|k: int| 0 <= k < n ==> first[k] == second[k],
        ensures
            self.diffuse_light_with(n, first, pos, normal, diffuse) == self.diffuse_light_with(
                n,
                second,
                pos,
                normal,
                diffuse,
            ),
        decreases n,
    {
        if n > 0 && n <= self.lights@.len() {
            self.lemma_seen_so_far((n - 1) as nat, first, second, pos, normal, diffuse);
        }
    }
}

/// The node whose object was hit has an object, and its material is among
/// the materials that the node or the node above it was furnished from.
pub proof fn lemma_within_furnished(
    node: Node,
    n: nat,
    pos: Vec3,
    dir: Vec3,
    materials: Seq<(String, Material)>,
)
    requires
        node.furnished(materials),
        node.nearest_within(n, pos, dir) is Some,
    ensures
        node.nearest_within(n, pos, dir)->Some_0.1.object is Some,
        material_index(
            materials,
            node.nearest_within(n, pos, dir)->Some_0.1.object->Some_0.material@,
        ) is Some,
    decreases node, 0nat, n,
{
    if n == 0 || n > node.children@.len() {
    } else {
        let before = node.nearest_within((n - 1) as nat, pos, dir);
        let child = node.children@[n - 1].hit(pos, dir);
        if before is Some {
            lemma_within_furnished(node, (n - 1) as nat, pos, dir, materials);
        }
        if child is Some {
            lemma_hit_furnished(node.children@[n - 1], pos, dir, materials);
        }
    }
}

/// The node whose object a ray hits has an object with a material.
pub proof fn lemma_hit_furnished(
    node: Node,
    pos: Vec3,
    dir: Vec3,
    materials: Seq<(String, Material)>,
)
    requires
        node.furnished(materials),
        node.hit(pos, dir) is Some,
    ensures
        node.hit(pos, dir)->Some_0.1.object is Some,
        material_index(materials, node.hit(pos, dir)->Some_0.1.object->Some_0.material@) is Some,
    decreases node, 1nat, 0nat,
{
    let ray = node.local_ray(pos, dir);
    lemma_within_furnished(node, node.children@.len(), ray.0, ray.1, materials);
}

/// In a scene whose objects all have their materials, the node whose object
/// a ray hits has an object with a material of the scene.
pub proof fn lemma_scene_hit_furnished(scene: Scene, n: nat, pos: Vec3, dir: Vec3)
    requires
        scene.wf(),
        scene.nearest_of(n, pos, dir) is Some,
    ensures
        scene.nearest_of(n, pos, dir)->Some_0.1.object is Some,
        material_index(
            scene.materials@,
            scene.nearest_of(n, pos, dir)->Some_0.1.object->Some_0.material@,
        ) is Some,
    decreases n,
{
    if n > 0 && n <= scene.nodes@.len() {
        let before = scene.nearest_of((n - 1) as nat, pos, dir);
        let latest = scene.nodes@[n - 1].hit(pos, dir);
        if before is Some {
            lemma_scene_hit_furnished(scene, (n - 1) as nat, pos, dir);
        }
        if latest is Some {
            lemma_hit_furnished(scene.nodes@[n - 1], pos, dir, scene.materials@);
        }
    }
}

impl Scene {
    /// The normal of a hit on the side from which the ray came.
    pub open spec fn facing(hit: HitView) -> Vec3 {
        if hit.side == Side::Back {
            negated(hit.normal)
        } else {
            hit.normal
        }
    }

    /// The colour that the ray from `pos` along `dir` sees by the light that
    /// falls straight on what it hits, where `seen[i]` shadow rays reach
    /// light `i`: what the surface gives off itself and the diffuse light
    /// from the lights of the scene; or the background at the place
    /// `(x, y)` of the image where the ray hits nothing.
    pub open spec fn direct_color_with(
        &self,
        pos: Vec3,
        dir: Vec3,
        x: i32,
        y: i32,
        seen: Seq<int>,
    ) -> Color {
        match self.hit(pos, dir) {
            None => self.background.color_at(Vec3 { x, y, z: 0 }),
            Some((hit, node)) => {
                let at = material_index(self.materials@, node.object->Some_0.material@)->Some_0;
                let material = self.materials@[at].1;
                color_sum(
                    material.emission,
                    self.diffuse_light_with(
                        self.lights@.len(),
                        seen,
                        hit.pos,
                        Self::facing(hit),
                        material.diffuse.color_at(hit.uv),
                    ),
                )
            },
        }
    }

    /// The colour that the ray from `pos` along `dir` sees by the light that
    /// falls straight on what it hits, in a scene without area lights.
    pub open spec fn direct_color(&self, pos: Vec3, dir: Vec3, x: i32, y: i32) -> Color {
        match self.hit(pos, dir) {
            None => self.background.color_at(Vec3 { x, y, z: 0 }),
            Some((hit, node)) => {
                let at = material_index(self.materials@, node.object->Some_0.material@)->Some_0;
                let material = self.materials@[at].1;
                color_sum(
                    material.emission,
                    self.diffuse_light(
                        self.lights@.len(),
                        hit.pos,
                        Self::facing(hit),
                        material.diffuse.color_at(hit.uv),
                    ),
                )
            },
        }
    }

    /// Computes the colour that the ray from `pos` along `dir` sees by the
    /// light that falls straight on what it hits, or the background at the
    /// place `(x, y)` of the image where it hits nothing. There is no
    /// colour where the ray hits a point from which the shadow rays cannot
    /// be cast, because their origin is out of reach.
    pub fn cast_direct(
        &self,
        rng: &mut rand::rngs::ThreadRng,
        pos: Vec3,
        dir: Vec3,
        x: i32,
        y: i32,
    ) -> (r: Option<Color>)
        requires
            self.wf(),
            self.reaches(pos),
            pos.in_range(),
            dir.in_range(),
        ensures
            r is None <==> (self.hit(pos, dir) matches Some(found) && !self.lights_reach(
                found.0.pos,
            )),
            r matches Some(color) ==> (self.hard_lit() ==> color == self.direct_color(
                pos,
                dir,
                x,
                y,
            )),
            r matches Some(color) ==> exists|seen: Seq<int>| #[trigger]
                self.direct_color_with(pos, dir, x, y, seen) == color && (self.hit(pos, dir)
                    matches Some(found) ==> self.can_be_seen(
                    seen,
                    found.0.pos,
                    Self::facing(found.0),
                )),
    {
        match self.intersect(pos, dir) {
            None => {
                let color = self.background.sample(Vec3 { x, y, z: 0 });
                assert(self.direct_color_with(pos, dir, x, y, Seq::empty()) == color);
                Some(color)
            },
            Some((hit_info, node)) => {
                proof {
                    lemma_scene_hit_furnished(*self, self.nodes@.len(), pos, dir);
                }
                if !self.can_light(hit_info.pos) {
                    return None;
                }
                // in a scene that can be used, the node that was hit has an
                // object and the object its material
                let object = match &node.object {
                    Some(object) => object,
                    None => {
                        return None;
                    },
                };
                let material = match self.material(&object.material) {
                    Some(material) => material,
                    None => {
                        return None;
                    },
                };
                proof {
                    let at = material_index(self.materials@, object.material@)->Some_0;
                    lemma_material_index(self.materials@, object.material@);
                    assert(self.materials@[at].1.wf());
                }
                let diffuse = material.diffuse.sample(hit_info.uv);
                let normal = match hit_info.side {
                    Side::Back => negate(hit_info.normal),
                    Side::Front => hit_info.normal,
                };
                let light = self.direct_diffuse(rng, hit_info.pos, normal, diffuse);
                let color = add_colors(material.emission, light);
                proof {
                    let seen = choose|seen: Seq<int>|
                        self.can_be_seen(seen, hit_info.pos, normal) && light
                            == #[trigger] self.diffuse_light_with(
                            self.lights@.len(),
                            seen,
                            hit_info.pos,
                            normal,
                            diffuse,
                        );
                    assert(self.direct_color_with(pos, dir, x, y, seen) == color);
                }
                Some(color)
            },
        }
    }
}

/// In a scene without lights no diffuse light falls on any point, and a ray
/// that hits nothing sees the background.
pub proof fn lemma_unlit(scene: Scene, pos: Vec3, dir: Vec3, normal: Vec3, diffuse: Color, x: i32, y: i32)
    requires
        scene.lights@.len() == 0,
    ensures
        scene.hard_lit(),
        scene.diffuse_light(scene.lights@.len(), pos, normal, diffuse) == (Vec3 { x: 0, y: 0, z: 0 }),
        scene.hit(pos, dir) is None ==> scene.direct_color(pos, dir, x, y)
            == scene.background.color_at(Vec3 { x, y, z: 0 }),
{
}

/// The place at which a material is found is a place among the materials.
pub proof fn lemma_material_index(materials: Seq<(String, Material)>, name: Seq<char>)
    requires
        material_index(materials, name) is Some,
    ensures
        0 <= material_index(materials, name)->Some_0 < materials.len(),
        materials[material_index(materials, name)->Some_0].0@ == name,
    decreases materials.len(),
{
    if materials.len() > 0 && materials[0].0@ != name {
        lemma_material_index(materials.drop_first(), name);
    }
}

} // verus!
