//! The scene: nodes with their transforms, materials, lights, and what a ray
//! reports when it hits a surface.

use crate::geometry::Geometry;
use crate::texture::{Color, Texture};
use crate::arith::{floor_div, longest};
use crate::transform::{Transform, LOCAL_MAX};
use crate::vector::{COORD_MAX, Frac, Ratio, UNIT, Vec3};
use vstd::arithmetic::power2::{lemma2_to64, lemma_pow2_adds, lemma_pow2_pos, lemma_pow2_unfold, pow2};
use vstd::prelude::*;

verus! {

/// The face of a surface that a ray struck.
#[derive(PartialEq, Eq, Debug, Clone, Copy, Structural)]
pub enum Side {
    Back,
    Front,
}

/// What is known of the point where a ray hit a surface.
#[derive(Debug, Clone, Copy)]
pub struct HitInfo {
    /// The ray parameter of the hit.
    pub z: Ratio,
    /// The grid point of the hit, kept within the range of coordinates: a
    /// point on the edge of the range may stand for one beyond it.
    pub pos: Vec3,
    /// The texture coordinates of the hit.
    pub uv: Vec3,
    /// The direction of the surface normal; its length carries no meaning.
    pub normal: Vec3,
    /// The face that was struck.
    pub side: Side,
}

/// A hit with its ray parameter as a fraction of mathematical integers.
pub struct HitView {
    pub z: Frac,
    pub pos: Vec3,
    pub uv: Vec3,
    pub normal: Vec3,
    pub side: Side,
}

impl View for HitInfo {
    type V = HitView;

    open spec fn view(&self) -> HitView {
        HitView { z: self.z@, pos: self.pos, uv: self.uv, normal: self.normal, side: self.side }
    }
}

/// The hit that was found, if any, with its ray parameter as a fraction of
/// mathematical integers.
pub open spec fn hit_view(hit: Option<HitInfo>) -> Option<HitView> {
    match hit {
        Some(h) => Some(h@),
        None => None,
    }
}

/// The nearer of two hits: the second unless the first is strictly nearer.
pub open spec fn nearer(first: Option<HitView>, second: Option<HitView>) -> Option<HitView> {
    match (first, second) {
        (Some(a), Some(b)) => if a.z.lt(b.z) {
            first
        } else {
            second
        },
        (Some(_), None) => first,
        (None, _) => second,
    }
}

/// How a surface answers light. The four textures give the colours of the
/// diffuse, specular, reflected and refracted light; the numbers are
/// fixed-point, with [`UNIT`] for one.
#[derive(Debug)]
pub struct Material {
    pub diffuse: Texture,
    pub specular: Texture,
    pub glossiness: i32,
    pub emission: Color,
    pub reflection: Texture,
    pub reflection_glossiness: i32,
    pub refraction: Texture,
    pub refraction_glossiness: i32,
    pub refraction_index: i32,
    pub absorption: Color,
}

impl Material {
    /// All four textures can be sampled.
    pub open spec fn wf(&self) -> bool {
        self.diffuse.wf() && self.specular.wf() && self.reflection.wf() && self.refraction.wf()
    }

    /// Whether all four textures can be sampled.
    pub fn is_well_formed(&self) -> (r: bool)
        ensures
            r == self.wf(),
    {
        self.diffuse.is_well_formed() && self.specular.is_well_formed()
            && self.reflection.is_well_formed() && self.refraction.is_well_formed()
    }
}

/// Where the light of a source comes from.
#[derive(Debug, Clone, Copy)]
pub enum LightType {
    /// From everywhere.
    Ambient,
    /// From infinitely far away, travelling along the direction given.
    Directional(Vec3),
    /// From a ball of radius `size` about `position`.
    Point { position: Vec3, size: i32 },
}

/// A source of light.
#[derive(Debug, Clone, Copy)]
pub struct Light {
    pub intensity: i32,
    pub color: Color,
    pub light_type: LightType,
}

impl Light {
    /// The vectors of the light are within the range of coordinates, and
    /// its size is not negative.
    pub open spec fn wf(&self) -> bool {
        match self.light_type {
            LightType::Ambient => true,
            LightType::Directional(direction) => direction.in_range(),
            LightType::Point { position, size } => position.in_range() && 0 <= size <= COORD_MAX,
        }
    }

    /// Whether the light can be used.
    pub fn is_well_formed(&self) -> (r: bool)
        ensures
            r == self.wf(),
    {
        match self.light_type {
            LightType::Ambient => true,
            LightType::Directional(direction) => direction.is_in_range(),
            LightType::Point { position, size } => position.is_in_range() && 0 <= size && size
                <= COORD_MAX,
        }
    }
}

/// The eye: where it stands, where it looks and what is up, its field of
/// view in degrees, the size of the image in pixels, the distance to the
/// plane in focus and the radius of the lens.
pub struct Camera {
    pub pos: Vec3,
    pub dir: Vec3,
    pub up: Vec3,
    pub fov: i32,
    pub img_width: u32,
    pub img_height: u32,
    pub focaldist: i32,
    pub dof: i32,
}

impl Default for Camera {
    /// A pinhole camera at the origin that looks down the negative z axis,
    /// with forty degrees of view and an image of 800 by 600 pixels.
    fn default() -> (camera: Camera)
        ensures
            camera.pos == (Vec3 { x: 0, y: 0, z: 0 }),
            camera.dir == (Vec3 { x: 0, y: 0, z: (-UNIT) as i32 }),
            camera.up == (Vec3 { x: 0, y: UNIT, z: 0 }),
            camera.fov == 40 * UNIT,
            camera.img_width == 800,
            camera.img_height == 600,
            camera.focaldist == UNIT,
            camera.dof == 0,
    {
        Camera {
            pos: Vec3 { x: 0, y: 0, z: 0 },
            dir: Vec3 { x: 0, y: 0, z: -UNIT },
            up: Vec3 { x: 0, y: UNIT, z: 0 },
            fov: 40 * UNIT,
            img_width: 800,
            img_height: 600,
            focaldist: UNIT,
            dof: 0,
        }
    }
}

/// A shape with the name of its material.
#[derive(Debug)]
pub struct Object {
    pub geometry: Geometry,
    pub material: String,
}

/// A node of the scene: an object or none, the transform that takes the
/// node's frame to the frame of its parent, and the nodes below it.
#[derive(Debug)]
pub struct Node {
    pub object: Option<Object>,
    pub transform: Transform,
    pub children: Vec<Node>,
    pub name: String,
}

/// All three numbers are within the range of coordinates.
pub open spec fn within_range(v: (int, int, int)) -> bool {
    &&& -COORD_MAX <= v.0 <= COORD_MAX
    &&& -COORD_MAX <= v.1 <= COORD_MAX
    &&& -COORD_MAX <= v.2 <= COORD_MAX
}

/// The grid vector of three numbers, where all are within the range of
/// coordinates.
fn grid_point(v: (i128, i128, i128)) -> (r: Option<Vec3>)
    ensures
        match r {
            Some(p) => within_range((v.0 as int, v.1 as int, v.2 as int)) && p.x == v.0 && p.y
                == v.1 && p.z == v.2 && p.in_range(),
            None => !within_range((v.0 as int, v.1 as int, v.2 as int)),
        },
{
    let limit: i128 = COORD_MAX as i128;
    if -limit <= v.0 && v.0 <= limit && -limit <= v.1 && v.1 <= limit && -limit <= v.2 && v.2
        <= limit {
        Some(Vec3 { x: v.0 as i32, y: v.1 as i32, z: v.2 as i32 })
    } else {
        None
    }
}

/// A direction halved, each number rounded down, until all three are
/// within the range of coordinates, and how often it was halved.
pub open spec fn fitted(d: (int, int, int)) -> ((int, int, int), nat)
    decreases longest(d),
{
    if within_range(d) {
        (d, 0)
    } else {
        proof {
            lemma_half_is_shorter(d);
        }
        let rest = fitted((d.0 / 2, d.1 / 2, d.2 / 2));
        (rest.0, rest.1 + 1)
    }
}

/// A direction beyond the range of coordinates gets shorter when it is
/// halved.
pub proof fn lemma_half_is_shorter(d: (int, int, int))
    requires
        !within_range(d),
    ensures
        0 <= longest((d.0 / 2, d.1 / 2, d.2 / 2)) < longest(d),
{
}

/// Halves a direction until it is within the range of coordinates.
fn fit(d: (i128, i128, i128)) -> (r: (Vec3, usize))
    requires
        -2 * LOCAL_MAX <= d.0 <= 2 * LOCAL_MAX,
        -2 * LOCAL_MAX <= d.1 <= 2 * LOCAL_MAX,
        -2 * LOCAL_MAX <= d.2 <= 2 * LOCAL_MAX,
    ensures
        r.0.x == fitted((d.0 as int, d.1 as int, d.2 as int)).0.0,
        r.0.y == fitted((d.0 as int, d.1 as int, d.2 as int)).0.1,
        r.0.z == fitted((d.0 as int, d.1 as int, d.2 as int)).0.2,
        r.1 == fitted((d.0 as int, d.1 as int, d.2 as int)).1,
        r.0.in_range(),
{
    let mut x: i128 = d.0;
    let mut y: i128 = d.1;
    let mut z: i128 = d.2;
    let mut halvings: usize = 0;
    // a bound on the numbers that halves with them
    let mut bound: i128 = 2 * LOCAL_MAX;
    proof {
        lemma2_to64();
    }
    loop
        invariant
            0 <= bound <= 2 * LOCAL_MAX,
            -bound - 1 <= x <= bound,
            -bound - 1 <= y <= bound,
            -bound - 1 <= z <= bound,
            halvings <= 128,
            bound * pow2(halvings as nat) <= 2 * LOCAL_MAX,
            fitted((d.0 as int, d.1 as int, d.2 as int)).0 == fitted(
                (x as int, y as int, z as int),
            ).0,
            fitted((d.0 as int, d.1 as int, d.2 as int)).1 == halvings + fitted(
                (x as int, y as int, z as int),
            ).1,
        decreases longest((x as int, y as int, z as int)),
    {
        match grid_point((x, y, z)) {
            Some(p) => {
                return (p, halvings);
            },
            None => {},
        }
        proof {
            lemma_half_is_shorter((x as int, y as int, z as int));
            // while a number lies beyond the range the bound is large, so
            // that it has not been halved often
            assert(bound >= COORD_MAX);
            lemma_pow2_unfold((halvings + 1) as nat);
            lemma_pow2_pos(halvings as nat);
            assert((bound / 2) * (2 * pow2(halvings as nat)) <= bound * pow2(halvings as nat))
                by (nonlinear_arith)
                requires
                    bound >= 0,
                    pow2(halvings as nat) > 0,
                    2 * (bound / 2) <= bound,
            ;
            if halvings >= 128 {
                lemma2_to64();
                lemma_pow2_adds(64, 64);
                let big = pow2(128) as int;
                assert(big == 0x1_0000_0000_0000_0000_0000_0000_0000_0000int) by (nonlinear_arith)
                    requires
                        big == pow2(64) * pow2(64),
                        pow2(64) == 0x1_0000_0000_0000_0000,
                ;
                assert(bound * big >= COORD_MAX * big) by (nonlinear_arith)
                    requires
                        bound >= COORD_MAX,
                        big > 0,
                ;
            }
        }
        x = floor_div(x, 2);
        y = floor_div(y, 2);
        z = floor_div(z, 2);
        bound = bound / 2;
        halvings += 1;
    }
}

/// The largest denominator that is doubled when a ray parameter is halved.
pub const PARAM_MAX: i64 = 0x2000_0000_0000_0000;

/// Half a ray parameter: the denominator doubled where that leaves it
/// within bounds, else the numerator halved and rounded down.
pub open spec fn halved_once(z: Frac) -> Frac {
    if 0 < z.den <= PARAM_MAX {
        Frac { num: z.num, den: 2 * z.den }
    } else {
        Frac { num: z.num / 2, den: z.den }
    }
}

/// A ray parameter halved `times` times.
pub open spec fn halved(z: Frac, times: nat) -> Frac
    decreases times,
{
    if times == 0 {
        z
    } else {
        halved(halved_once(z), (times - 1) as nat)
    }
}

/// A finite ray parameter stays finite when it is halved.
pub proof fn lemma_halved_finite(z: Frac, times: nat)
    requires
        z.den > 0,
    ensures
        halved(z, times).den > 0,
    decreases times,
{
    if times > 0 {
        lemma_halved_finite(halved_once(z), (times - 1) as nat);
    }
}

/// Halves a ray parameter `times` times.
pub fn halve(z: Ratio, times: usize) -> (r: Ratio)
    ensures
        r@ == halved(z@, times as nat),
{
    let mut r = z;
    let mut left: usize = times;
    while left > 0
        invariant
            halved(r@, left as nat) == halved(z@, times as nat),
        decreases left,
    {
        if 0 < r.den && r.den <= PARAM_MAX {
            r = Ratio { num: r.num, den: 2 * r.den };
        } else {
            r = Ratio { num: floor_div(r.num as i128, 2) as i64, den: r.den };
        }
        left -= 1;
    }
    r
}

/// A hit together with the node whose object was hit.
pub open spec fn found_view(found: Option<(HitInfo, &Node)>) -> Option<(HitView, Node)> {
    match found {
        Some((hit, node)) => Some((hit@, *node)),
        None => None,
    }
}

/// The nearer of two hits with their nodes: the first unless the second is
/// strictly nearer.
pub open spec fn nearer_found(
    first: Option<(HitView, Node)>,
    second: Option<(HitView, Node)>,
) -> Option<(HitView, Node)> {
    match (first, second) {
        (Some(a), Some(b)) => if b.0.z.lt(a.0.z) {
            second
        } else {
            first
        },
        (Some(_), None) => first,
        (None, _) => second,
    }
}

impl Node {
    /// The node and all nodes below it can be used: their transforms can be
    /// inverted and their meshes are consistent.
    pub open spec fn wf(&self) -> bool
        decreases self,
    {
        &&& self.transform.invertible()
        &&& (self.object matches Some(object) ==> object.geometry.wf())
        &&& forall|i: int|
            0 <= i < self.children@.len() ==> (#[trigger] self.children@[i]).wf()
    }

    /// The origin of a ray can be taken into the frame of the node and into
    /// the frames of all nodes below it: in each of them it lies within the
    /// range of coordinates.
    pub open spec fn reaches(&self, pos: Vec3) -> bool
        decreases self,
    {
        let from = self.transform.local_exact(pos);
        &&& within_range(from)
        &&& forall|i: int|
            0 <= i < self.children@.len() ==> (#[trigger] self.children@[i]).reaches(
                Vec3 { x: from.0 as i32, y: from.1 as i32, z: from.2 as i32 },
            )
    }

    /// The ray in the frame of the node, for an origin within reach: its
    /// origin taken there; its direction, which is the difference between
    /// the end of the direction, taken there, and the origin, halved until
    /// it lies within the range of coordinates; and how often it was halved.
    pub open spec fn local_ray(&self, pos: Vec3, dir: Vec3) -> (Vec3, Vec3, nat) {
        let target = Vec3 {
            x: (pos.x + dir.x) as i32,
            y: (pos.y + dir.y) as i32,
            z: (pos.z + dir.z) as i32,
        };
        let from = self.transform.local_exact(pos);
        let to = self.transform.local_exact(target);
        let along = fitted((to.0 - from.0, to.1 - from.1, to.2 - from.2));
        (
            Vec3 { x: from.0 as i32, y: from.1 as i32, z: from.2 as i32 },
            Vec3 { x: along.0.0 as i32, y: along.0.1 as i32, z: along.0.2 as i32 },
            along.1,
        )
    }

    /// The nearest hit below the node among its own object and the first `n`
    /// of its children, in the frame of the node.
    pub open spec fn nearest_within(&self, n: nat, pos: Vec3, dir: Vec3) -> Option<
        (HitView, Node),
    >
        decreases self, 0nat, n,
    {
        if n == 0 || n > self.children@.len() {
            match self.object {
                Some(object) => match object.geometry.hit(pos, dir) {
                    Some(hit) => Some((hit, *self)),
                    None => None,
                },
                None => None,
            }
        } else {
            nearer_found(
                self.nearest_within((n - 1) as nat, pos, dir),
                self.children@[n - 1].hit(pos, dir),
            )
        }
    }

    /// What the ray from `pos` along `dir`, given in the frame of the parent
    /// with its origin within reach, hits first of the node's object and of
    /// all that is below the node, and the node whose object that is:
    /// nothing if and only if neither the object nor a node below is hit.
    /// The position and the normal of the hit are given in the frame of the
    /// parent. The ray parameter is the parameter along the direction in
    /// the frame of the node, halved as often as that direction was.
    pub open spec fn hit(&self, pos: Vec3, dir: Vec3) -> Option<(HitView, Node)>
        recommends
            self.reaches(pos),
        decreases self, 1nat, 0nat,
    {
        let ray = self.local_ray(pos, dir);
        match self.nearest_within(self.children@.len(), ray.0, ray.1) {
            None => None,
            Some((hit, node)) => Some(
                (
                    HitView {
                        z: halved(hit.z, ray.2),
                        pos: self.transform.outer(hit.pos),
                        uv: hit.uv,
                        normal: self.transform.outer_normal(hit.normal),
                        side: hit.side,
                    },
                    node,
                ),
            ),
        }
    }
}

impl Node {
    fn ray_to_local_space(&self, pos: Vec3, dir: Vec3) -> (r: (Vec3, Vec3, usize))
        requires
            self.transform.invertible(),
            pos.in_range(),
            dir.in_range(),
            within_range(self.transform.local_exact(pos)),
        ensures
            r.0 == self.local_ray(pos, dir).0,
            r.1 == self.local_ray(pos, dir).1,
            r.2 == self.local_ray(pos, dir).2,
            r.0.in_range(),
            r.1.in_range(),
    {
        let target = Vec3 { x: pos.x + dir.x, y: pos.y + dir.y, z: pos.z + dir.z };
        let from = self.transform.to_local_exact(pos);
        let to = self.transform.to_local_exact(target);
        let (along, halvings) = fit((to.0 - from.0, to.1 - from.1, to.2 - from.2));
        (Vec3 { x: from.0 as i32, y: from.1 as i32, z: from.2 as i32 }, along, halvings)
    }

    fn from_local_space(&self, vec: Vec3) -> (r: Vec3)
        ensures
            r == self.transform.outer(vec),
            r.in_range(),
    {
        self.transform.from_local_space(vec)
    }

    /// Whether the origin of a ray can be taken into the frame of the node
    /// and into the frames of all nodes below it.
    pub fn is_within_reach(&self, pos: Vec3) -> (r: bool)
        requires
            self.wf(),
        ensures
            r == self.reaches(pos),
        decreases self,
    {
        let local_pos = match grid_point(self.transform.to_local_exact(pos)) {
            Some(p) => p,
            None => {
                return false;
            },
        };
        let ghost from = self.transform.local_exact(pos);
        assert(local_pos == Vec3 { x: from.0 as i32, y: from.1 as i32, z: from.2 as i32 });
        let mut i: usize = 0;
        while i < self.children.len()
            invariant
                self.wf(),
                i <= self.children@.len(),
                within_range(from),
                from == self.transform.local_exact(pos),
                local_pos == (Vec3 { x: from.0 as i32, y: from.1 as i32, z: from.2 as i32 }),
                forall|k: int| 0 <= k < i ==> (#[trigger] self.children@[k]).reaches(local_pos),
            decreases self.children@.len() - i,
        {
            if !self.children[i].is_within_reach(local_pos) {
                assert(!(#[trigger] self.children@[i as int]).reaches(local_pos));
                return false;
            }
            i += 1;
        }
        true
    }

    /// Finds what the ray from `pos` along `dir`, given in the frame of the
    /// parent, hits first of the node's object and of all below the node.
    /// The origin must be within reach of the node and of all below it.
    pub fn intersect(&self, pos: Vec3, dir: Vec3) -> (r: Option<(HitInfo, &Node)>)
        requires
            self.wf(),
            self.reaches(pos),
            pos.in_range(),
            dir.in_range(),
        ensures
            found_view(r) == self.hit(pos, dir),
            r matches Some(found) ==> found.0.pos.in_range() && found.0.normal.in_range(),
        decreases self,
    {
        let (local_pos, local_dir, halvings) = self.ray_to_local_space(pos, dir);
        let mut nearest: Option<(HitInfo, &Node)> = match &self.object {
            Some(object) => match object.geometry.intersect(local_pos, local_dir) {
                Some(hit_info) => Some((hit_info, self)),
                None => None,
            },
            None => None,
        };
        let mut i: usize = 0;
        while i < self.children.len()
            invariant
                self.wf(),
                self.reaches(pos),
                local_pos == self.local_ray(pos, dir).0,
                i <= self.children@.len(),
                local_pos.in_range(),
                local_dir.in_range(),
                found_view(nearest) == self.nearest_within(i as nat, local_pos, local_dir),
            decreases self.children@.len() - i,
        {
            if let Some((hit_info, node)) = self.children[i].intersect(local_pos, local_dir) {
                nearest = match nearest {
                    Some((nearest_hit_info, nearest_node)) => if hit_info.z.less_than(
                        &nearest_hit_info.z,
                    ) {
                        Some((hit_info, node))
                    } else {
                        Some((nearest_hit_info, nearest_node))
                    },
                    None => Some((hit_info, node)),
                };
            }
            i += 1;
        }
        match nearest {
            Some((hit_info, node)) => Some(
                (
                    HitInfo {
                        z: halve(hit_info.z, halvings),
                        pos: self.from_local_space(hit_info.pos),
                        uv: hit_info.uv,
                        normal: self.transform.normal_from_local_space(hit_info.normal),
                        side: hit_info.side,
                    },
                    node,
                ),
            ),
            None => None,
        }
    }
}

/// The scene: the nodes at its top, the materials under their names, the
/// lights, and the textures that a ray sees when it hits nothing.
#[derive(Debug)]
pub struct Scene {
    pub nodes: Vec<Node>,
    pub materials: Vec<(String, Material)>,
    pub lights: Vec<Light>,
    pub background: Texture,
    pub environment: Texture,
}

/// The place of the first material under the name, if there is one.
pub open spec fn material_index(materials: Seq<(String, Material)>, name: Seq<char>) -> Option<int>
    decreases materials.len(),
{
    if materials.len() == 0 {
        None
    } else if materials[0].0@ == name {
        Some(0)
    } else {
        match material_index(materials.drop_first(), name) {
            Some(i) => Some(i + 1),
            None => None,
        }
    }
}

impl Node {
    /// The objects of the node and of all nodes below it have materials
    /// among `materials`.
    pub open spec fn furnished(&self, materials: Seq<(String, Material)>) -> bool
        decreases self,
    {
        &&& (self.object matches Some(object) ==> material_index(materials, object.material@)
            is Some)
        &&& forall|i: int|
            0 <= i < self.children@.len() ==> (#[trigger] self.children@[i]).furnished(materials)
    }

    /// Whether the node and all nodes below it can be used.
    pub fn is_well_formed(&self) -> (r: bool)
        ensures
            r == self.wf(),
        decreases self,
    {
        if !self.transform.is_invertible() {
            return false;
        }
        if let Some(object) = &self.object {
            if !object.geometry.is_well_formed() {
                return false;
            }
        }
        let mut i: usize = 0;
        while i < self.children.len()
            invariant
                i <= self.children@.len(),
                forall|k: int| 0 <= k < i ==> (#[trigger] self.children@[k]).wf(),
            decreases self.children@.len() - i,
        {
            if !self.children[i].is_well_formed() {
                return false;
            }
            i += 1;
        }
        true
    }
}

/// Looks for the first material under the name.
fn find_material<'a>(materials: &'a Vec<(String, Material)>, name: &String) -> (r: Option<
    &'a Material,
>)
    ensures
        match material_index(materials@, name@) {
            Some(i) => r == Some(&materials@[i].1),
            None => r is None,
        },
{
    let mut i: usize = 0;
    assert(materials@.skip(0) =~= materials@);
    while i < materials.len()
        invariant
            i <= materials@.len(),
            material_index(materials@, name@) == (match material_index(
                materials@.skip(i as int),
                name@,
            ) {
                Some(k) => Some(k + i),
                None => None,
            }),
        decreases materials@.len() - i,
    {
        let ghost rest = materials@.skip(i as int);
        assert(rest[0] == materials@[i as int]);
        assert(rest.drop_first() =~= materials@.skip(i + 1));
        if materials[i].0 == *name {
            return Some(&materials[i].1);
        }
        i += 1;
    }
    assert(materials@.skip(i as int).len() == 0);
    None
}

impl Node {
    /// Whether the objects of the node and of all nodes below it have
    /// materials among `materials`.
    pub fn is_furnished(&self, materials: &Vec<(String, Material)>) -> (r: bool)
        ensures
            r == self.furnished(materials@),
        decreases self,
    {
        if let Some(object) = &self.object {
            if find_material(materials, &object.material).is_none() {
                return false;
            }
        }
        let mut i: usize = 0;
        while i < self.children.len()
            invariant
                i <= self.children@.len(),
                forall|k: int| 0 <= k < i ==> (#[trigger] self.children@[k]).furnished(materials@),
            decreases self.children@.len() - i,
        {
            if !self.children[i].is_furnished(materials) {
                return false;
            }
            i += 1;
        }
        true
    }
}

impl Scene {
    /// Whether the origin of a ray can be taken into the frames of all nodes
    /// of the scene, so that rays from there can be cast.
    pub fn is_within_reach(&self, pos: Vec3) -> (r: bool)
        requires
            self.traceable(),
        ensures
            r == self.reaches(pos),
    {
        let mut i: usize = 0;
        while i < self.nodes.len()
            invariant
                self.traceable(),
                i <= self.nodes@.len(),
                forall|k: int| 0 <= k < i ==> (#[trigger] self.nodes@[k]).reaches(pos),
            decreases self.nodes@.len() - i,
        {
            if !self.nodes[i].is_within_reach(pos) {
                return false;
            }
            i += 1;
        }
        true
    }

    /// Whether rays can be cast into the scene: whether every transform
    /// can be inverted and every mesh is consistent.
    pub fn is_traceable(&self) -> (r: bool)
        ensures
            r == self.traceable(),
    {
        let mut i: usize = 0;
        while i < self.nodes.len()
            invariant
                i <= self.nodes@.len(),
                forall|k: int| 0 <= k < i ==> (#[trigger] self.nodes@[k]).wf(),
            decreases self.nodes@.len() - i,
        {
            if !self.nodes[i].is_well_formed() {
                return false;
            }
            i += 1;
        }
        true
    }

    /// Whether the scene can be used: whether every transform can be
    /// inverted, every mesh is consistent, every light is within range,
    /// every texture can be sampled and every object has its material.
    pub fn is_well_formed(&self) -> (r: bool)
        ensures
            r == self.wf(),
    {
        if !self.is_traceable() {
            return false;
        }
        let mut i: usize = 0;
        while i < self.nodes.len()
            invariant
                i <= self.nodes@.len(),
                forall|k: int| 0 <= k < i ==> (#[trigger] self.nodes@[k]).furnished(self.materials@),
            decreases self.nodes@.len() - i,
        {
            if !self.nodes[i].is_furnished(&self.materials) {
                return false;
            }
            i += 1;
        }
        let mut j: usize = 0;
        while j < self.materials.len()
            invariant
                j <= self.materials@.len(),
                forall|k: int| 0 <= k < j ==> (#[trigger] self.materials@[k]).1.wf(),
            decreases self.materials@.len() - j,
        {
            if !self.materials[j].1.is_well_formed() {
                return false;
            }
            j += 1;
        }
        let mut k: usize = 0;
        while k < self.lights.len()
            invariant
                k <= self.lights@.len(),
                forall|m: int| 0 <= m < k ==> (#[trigger] self.lights@[m]).wf(),
            decreases self.lights@.len() - k,
        {
            if !self.lights[k].is_well_formed() {
                return false;
            }
            k += 1;
        }
        self.background.is_well_formed() && self.environment.is_well_formed()
    }

    /// The origin of a ray can be taken into the frames of all nodes of the
    /// scene: rays from there can be cast.
    pub open spec fn reaches(&self, pos: Vec3) -> bool {
        forall|i: int| 0 <= i < self.nodes@.len() ==> (#[trigger] self.nodes@[i]).reaches(pos)
    }

    /// Rays can be cast into the scene: every node of it can be used.
    pub open spec fn traceable(&self) -> bool {
        forall|i: int| 0 <= i < self.nodes@.len() ==> (#[trigger] self.nodes@[i]).wf()
    }

    /// The scene can be used: every node and every light can, every texture
    /// can be sampled, and every object has its material.
    pub open spec fn wf(&self) -> bool {
        &&& self.traceable()
        &&& forall|i: int|
            0 <= i < self.nodes@.len() ==> (#[trigger] self.nodes@[i]).furnished(self.materials@)
        &&& forall|i: int|
            0 <= i < self.materials@.len() ==> (#[trigger] self.materials@[i]).1.wf()
        &&& forall|i: int| 0 <= i < self.lights@.len() ==> (#[trigger] self.lights@[i]).wf()
        &&& self.background.wf()
        &&& self.environment.wf()
    }

    /// The nearest hit among the first `n` nodes at the top of the scene.
    pub open spec fn nearest_of(&self, n: nat, pos: Vec3, dir: Vec3) -> Option<(HitView, Node)>
        decreases n,
    {
        if n == 0 || n > self.nodes@.len() {
            None
        } else {
            nearer_found(self.nearest_of((n - 1) as nat, pos, dir), self.nodes@[n - 1].hit(pos, dir))
        }
    }

    /// What the ray from `pos` along `dir`, with its origin within reach,
    /// hits first in the scene, and the node whose object that is: the hit
    /// with the least ray parameter among the hits of all nodes, the
    /// earliest of them where several are as near.
    pub open spec fn hit(&self, pos: Vec3, dir: Vec3) -> Option<(HitView, Node)>
        recommends
            self.reaches(pos),
    {
        self.nearest_of(self.nodes@.len(), pos, dir)
    }

    /// Finds what the ray from `pos` along `dir` hits first in the scene.
    pub fn intersect(&self, pos: Vec3, dir: Vec3) -> (r: Option<(HitInfo, &Node)>)
        requires
            self.traceable(),
            self.reaches(pos),
            pos.in_range(),
            dir.in_range(),
        ensures
            found_view(r) == self.hit(pos, dir),
            r matches Some(found) ==> found.0.pos.in_range() && found.0.normal.in_range(),
    {
        let mut nearest: Option<(HitInfo, &Node)> = None;
        let mut i: usize = 0;
        while i < self.nodes.len()
            invariant
                i <= self.nodes@.len(),
                self.traceable(),
                self.reaches(pos),
                pos.in_range(),
                dir.in_range(),
                found_view(nearest) == self.nearest_of(i as nat, pos, dir),
                nearest matches Some(found) ==> found.0.pos.in_range() && found.0.normal.in_range(),
            decreases self.nodes@.len() - i,
        {
            if let Some((hit_info, node)) = self.nodes[i].intersect(pos, dir) {
                nearest = match nearest {
                    Some((nearest_hit_info, nearest_node)) => if hit_info.z.less_than(
                        &nearest_hit_info.z,
                    ) {
                        Some((hit_info, node))
                    } else {
                        Some((nearest_hit_info, nearest_node))
                    },
                    None => Some((hit_info, node)),
                };
            }
            i += 1;
        }
        nearest
    }

    /// Something stands in the way of the ray from `pos` along `dir`, with
    /// its origin within reach: before the ray parameter `limit`, where
    /// there is one, or anywhere along the ray, for a light that is
    /// infinitely far away.
    pub open spec fn blocked(&self, pos: Vec3, dir: Vec3, limit: Option<Frac>) -> bool
        recommends
            self.reaches(pos),
    {
        match self.hit(pos, dir) {
            Some((hit, _)) => match limit {
                Some(end) => hit.z.lt(end),
                None => true,
            },
            None => false,
        }
    }

    /// Whether something stands in the way of the ray from `pos` along
    /// `dir` before the ray parameter `limit`, or anywhere along the ray
    /// where there is no limit.
    pub fn occluded(&self, pos: Vec3, dir: Vec3, limit: Option<Ratio>) -> (r: bool)
        requires
            self.traceable(),
            self.reaches(pos),
            pos.in_range(),
            dir.in_range(),
        ensures
            r == self.blocked(
                pos,
                dir,
                match limit {
                    Some(end) => Some(end@),
                    None => None,
                },
            ),
    {
        match self.intersect(pos, dir) {
            Some((hit_info, _)) => match limit {
                Some(end) => hit_info.z.less_than(&end),
                None => true,
            },
            None => false,
        }
    }

    /// Looks up a material by its name: the first one under that name.
    pub fn material(&self, name: &String) -> (r: Option<&Material>)
        ensures
            match material_index(self.materials@, name@) {
                Some(i) => r == Some(&self.materials@[i].1),
                None => r is None,
            },
    {
        find_material(&self.materials, name)
    }
}

} // verus!
