//! Sight between two points of a scene, and the share of an area light that
//! a point sees.

use crate::scene::Scene;
use crate::transform::{keep_in_range, kept_in_range};
use crate::vector::{COORD_MAX, Frac, Ratio, Vec3};
use vstd::prelude::*;

verus! {

/// The number of shadow rays cast towards an area light.
pub const SHADOW_SAMPLES: usize = 16;

/// How many points are drawn for one point of an area light, before its
/// centre is taken.
pub const OFFSET_TRIES: usize = 8;

/// The random number generator of a thread, of the crate `rand`.
#[verifier::external_type_specification]
#[verifier::external_body]
pub struct ExThreadRng(rand::rngs::ThreadRng);

/// Draws a whole number from the generator by `Rng::gen_range` of the crate
/// `rand`. All that is claimed of the number is that it lies in
/// `low ..= high`: `gen_range` panics on an empty range, which is left out
/// here, and else adds to `low` a number below the size of the range.
#[verifier::external_body]
fn random_between(rng: &mut rand::rngs::ThreadRng, low: i32, high: i32) -> (r: i32)
    requires
        low <= high,
    ensures
        low <= r <= high,
{
    rand::Rng::gen_range(rng, low..=high)
}

/// The point lies in the ball of radius `size` about the origin.
pub open spec fn in_ball(point: Vec3, size: int) -> bool {
    point.norm2() <= size * size
}

/// Every point lies in the cube around the ball of radius `size` about the
/// origin.
pub open spec fn in_cube(points: Seq<Vec3>, size: int) -> bool {
    forall|k: int| 0 <= k < points.len() ==> (#[trigger] points[k]).within(size)
}

/// The first of the points that lies in the ball of radius `size` about the
/// origin, or the centre of the ball where none does.
pub open spec fn first_inside(points: Seq<Vec3>, size: int) -> Vec3
    decreases points.len(),
{
    if points.len() == 0 {
        Vec3 { x: 0, y: 0, z: 0 }
    } else if in_ball(points[0], size) {
        points[0]
    } else {
        first_inside(points.drop_first(), size)
    }
}

/// The point that is picked lies in the ball, and in the cube where all
/// points do.
pub proof fn lemma_first_inside(points: Seq<Vec3>, size: int)
    requires
        size >= 0,
    ensures
        in_ball(first_inside(points, size), size),
        in_cube(points, size) ==> first_inside(points, size).within(size),
    decreases points.len(),
{
    assert(size * size >= 0) by (nonlinear_arith);
    if points.len() > 0 && !in_ball(points[0], size) {
        lemma_first_inside(points.drop_first(), size);
        if in_cube(points, size) {
            assert forall|k: int| 0 <= k < points.drop_first().len() implies (
            #[trigger] points.drop_first()[k]).within(size) by {
                assert(points.drop_first()[k] == points[k + 1]);
            }
        }
    } else if points.len() > 0 {
        if in_cube(points, size) {
            assert(points[0].within(size));
        }
    } else {
        let centre = Vec3 { x: 0, y: 0, z: 0 };
        assert(centre.norm2() == 0) by (nonlinear_arith)
            requires
                centre.norm2() == centre.x * centre.x + centre.y * centre.y + centre.z * centre.z,
                centre.x == 0,
                centre.y == 0,
                centre.z == 0,
        ;
    }
}

/// Picks the first of the points that lies in the ball of radius `size`
/// about the origin, or the centre of the ball where none does.
pub fn first_in_ball(points: &Vec<Vec3>, size: i32) -> (r: Vec3)
    requires
        0 <= size <= COORD_MAX,
    ensures
        r == first_inside(points@, size as int),
{
    proof {
        crate::arith::lemma_mul_bound(size as int, size as int, COORD_MAX as int, COORD_MAX as int);
    }
    let limit: i128 = (size as i128) * (size as i128);
    let mut i: usize = 0;
    assert(points@.skip(0) =~= points@);
    while i < points.len()
        invariant
            i <= points@.len(),
            limit == size * size,
            first_inside(points@, size as int) == first_inside(points@.skip(i as int), size as int),
        decreases points@.len() - i,
    {
        let point = points[i];
        assert(points@.skip(i as int)[0] == point);
        assert(points@.skip(i as int).drop_first() =~= points@.skip(i + 1));
        if point.dot_product(&point) <= limit {
            return point;
        }
        i += 1;
    }
    assert(points@.skip(i as int).len() == 0);
    Vec3 { x: 0, y: 0, z: 0 }
}

/// Draws from `rng` a point of the ball of radius `size` about the origin:
/// it draws [`OFFSET_TRIES`] points of the cube around the ball and takes
/// the first of them that lies in the ball, or the centre where none does.
pub fn random_in_ball(rng: &mut rand::rngs::ThreadRng, size: i32) -> (r: Vec3)
    requires
        0 <= size <= COORD_MAX,
    ensures
        exists|drawn: Seq<Vec3>|
            r == #[trigger] first_inside(drawn, size as int) && drawn.len() == OFFSET_TRIES
                && in_cube(drawn, size as int),
        r.norm2() <= size * size,
        -size <= r.x <= size,
        -size <= r.y <= size,
        -size <= r.z <= size,
{
    let mut drawn: Vec<Vec3> = Vec::new();
    while drawn.len() < OFFSET_TRIES
        invariant
            0 <= size <= COORD_MAX,
            drawn@.len() <= OFFSET_TRIES,
            in_cube(drawn@, size as int),
        decreases OFFSET_TRIES - drawn@.len(),
    {
        let x = random_between(rng, -size, size);
        let y = random_between(rng, -size, size);
        let z = random_between(rng, -size, size);
        drawn.push(Vec3 { x, y, z });
    }
    proof {
        lemma_first_inside(drawn@, size as int);
    }
    first_in_ball(&drawn, size)
}

/// The ray from `from` on which `to` lies, and the ray parameter at which it
/// lies there: the difference of the two and the parameter one, or half the
/// difference, rounded down, and the parameter two where the difference is
/// beyond the range of coordinates.
pub open spec fn sight_line(from: Vec3, to: Vec3) -> (Vec3, Frac) {
    let whole = to.minus(from);
    if whole.in_range() {
        (whole, Frac { num: 1, den: 1 })
    } else {
        (
            Vec3 {
                x: ((to.x - from.x) / 2) as i32,
                y: ((to.y - from.y) / 2) as i32,
                z: ((to.z - from.z) / 2) as i32,
            },
            Frac { num: 2, den: 1 },
        )
    }
}

fn half(x: i32) -> (r: i32)
    requires
        -2 * COORD_MAX <= x <= 2 * COORD_MAX,
    ensures
        r == x / 2,
        -COORD_MAX <= r <= COORD_MAX,
{
    if x >= 0 {
        x / 2
    } else {
        -((1 - x) / 2)
    }
}

/// Finds the ray from `from` on which `to` lies, and the ray parameter at
/// which it lies there.
pub fn line_of_sight(from: Vec3, to: Vec3) -> (r: (Vec3, Ratio))
    requires
        from.in_range(),
        to.in_range(),
    ensures
        r.0 == sight_line(from, to).0,
        r.1@ == sight_line(from, to).1,
        r.0.in_range(),
{
    let whole = to.difference(&from);
    if whole.is_in_range() {
        (whole, Ratio { num: 1, den: 1 })
    } else {
        (Vec3 { x: half(whole.x), y: half(whole.y), z: half(whole.z) }, Ratio { num: 2, den: 1 })
    }
}

/// A point shifted by an offset, kept within the range of coordinates.
pub open spec fn shifted(point: Vec3, offset: Vec3) -> Vec3 {
    Vec3 {
        x: kept_in_range(point.x + offset.x) as i32,
        y: kept_in_range(point.y + offset.y) as i32,
        z: kept_in_range(point.z + offset.z) as i32,
    }
}

fn shift(point: Vec3, offset: Vec3) -> (r: Vec3)
    ensures
        r == shifted(point, offset),
        r.in_range(),
{
    Vec3 {
        x: keep_in_range(point.x as i128 + offset.x as i128),
        y: keep_in_range(point.y as i128 + offset.y as i128),
        z: keep_in_range(point.z as i128 + offset.z as i128),
    }
}

/// The points of a light: its place shifted by every offset.
pub open spec fn targets_of(position: Vec3, offsets: Seq<Vec3>) -> Seq<Vec3> {
    Seq::new(offsets.len(), |k: int| shifted(position, offsets[k]))
}

/// Every offset lies in the ball of radius `size` about the origin.
pub open spec fn all_in_ball(offsets: Seq<Vec3>, size: int) -> bool {
    forall|k: int| 0 <= k < offsets.len() ==> in_ball(#[trigger] offsets[k], size)
}

impl Scene {
    /// Nothing of the scene stands between `from`, which is within reach,
    /// and `to`.
    pub open spec fn sees(&self, from: Vec3, to: Vec3) -> bool
        recommends
            self.reaches(from),
    {
        !self.blocked(from, sight_line(from, to).0, Some(sight_line(from, to).1))
    }

    /// How many of the points of `targets` are seen from `from`.
    pub open spec fn seen_count(&self, from: Vec3, targets: Seq<Vec3>) -> nat
        decreases targets.len(),
    {
        if targets.len() == 0 {
            0
        } else {
            self.seen_count(from, targets.drop_last()) + if self.sees(from, targets.last()) {
                1nat
            } else {
                0nat
            }
        }
    }

    /// Whether nothing of the scene stands between `from` and `to`.
    pub fn can_see(&self, from: Vec3, to: Vec3) -> (r: bool)
        requires
            self.traceable(),
            self.reaches(from),
            from.in_range(),
            to.in_range(),
        ensures
            r == self.sees(from, to),
    {
        let (dir, limit) = line_of_sight(from, to);
        !self.occluded(from, dir, Some(limit))
    }

    /// Counts the points of `targets` that are seen from `from`.
    pub fn count_seen(&self, from: Vec3, targets: &Vec<Vec3>) -> (r: usize)
        requires
            self.traceable(),
            self.reaches(from),
            from.in_range(),
            forall|k: int| 0 <= k < targets@.len() ==> (#[trigger] targets@[k]).in_range(),
        ensures
            r == self.seen_count(from, targets@),
            r <= targets@.len(),
    {
        let mut seen: usize = 0;
        let mut k: usize = 0;
        assert(targets@.take(0) =~= Seq::<Vec3>::empty());
        while k < targets.len()
            invariant
                self.traceable(),
                self.reaches(from),
                from.in_range(),
                forall|j: int| 0 <= j < targets@.len() ==> (#[trigger] targets@[j]).in_range(),
                k <= targets@.len(),
                seen <= k,
                seen == self.seen_count(from, targets@.take(k as int)),
            decreases targets@.len() - k,
        {
            assert(targets@.take(k + 1).drop_last() =~= targets@.take(k as int));
            if self.can_see(from, targets[k]) {
                seen += 1;
            }
            k += 1;
        }
        assert(targets@.take(k as int) =~= targets@);
        seen
    }

    /// `seen` of [`SHADOW_SAMPLES`] shadow rays from `from` reach their
    /// points, for some points of the ball of radius `size` about
    /// `position`.
    pub open spec fn sampled(&self, from: Vec3, position: Vec3, size: int, seen: int) -> bool {
        exists|offsets: Seq<Vec3>|
            offsets.len() == SHADOW_SAMPLES && all_in_ball(offsets, size) && seen
                == #[trigger] self.seen_count(from, targets_of(position, offsets))
    }

    /// Casts [`SHADOW_SAMPLES`] shadow rays from `from` to points drawn by
    /// `rng` from the ball of radius `size` about `position`, and returns how
    /// many of them reach their point. A light without size is seen as a
    /// whole or not at all.
    pub fn soft_shadow(
        &self,
        rng: &mut rand::rngs::ThreadRng,
        from: Vec3,
        position: Vec3,
        size: i32,
    ) -> (r: usize)
        requires
            self.traceable(),
            self.reaches(from),
            from.in_range(),
            position.in_range(),
            0 <= size <= COORD_MAX,
        ensures
            r <= SHADOW_SAMPLES,
            self.sampled(from, position, size as int, r as int),
            size == 0 ==> r == (if self.sees(from, position) {
                SHADOW_SAMPLES
            } else {
                0
            }),
    {
        let mut targets: Vec<Vec3> = Vec::new();
        let ghost mut offsets: Seq<Vec3> = Seq::empty();
        while targets.len() < SHADOW_SAMPLES
            invariant
                position.in_range(),
                0 <= size <= COORD_MAX,
                targets@.len() <= SHADOW_SAMPLES,
                offsets.len() == targets@.len(),
                all_in_ball(offsets, size as int),
                targets@ =~= targets_of(position, offsets),
                forall|k: int| 0 <= k < targets@.len() ==> (#[trigger] targets@[k]).in_range(),
                size == 0 ==> forall|k: int|
                    0 <= k < targets@.len() ==> (#[trigger] targets@[k]) == position,
            decreases SHADOW_SAMPLES - targets@.len(),
        {
            let offset = random_in_ball(rng, size);
            targets.push(shift(position, offset));
            proof {
                offsets = offsets.push(offset);
            }
        }
        proof {
            if size == 0 {
                self.lemma_seen_all_or_none(from, targets@, position);
            }
            assert(targets@ == targets_of(position, offsets));
        }
        self.count_seen(from, &targets)
    }

    /// Of points that are all one point, all are seen or none.
    pub proof fn lemma_seen_all_or_none(&self, from: Vec3, targets: Seq<Vec3>, point: Vec3)
        requires
            forall|k: int| 0 <= k < targets.len() ==> (#[trigger] targets[k]) == point,
        ensures
            self.seen_count(from, targets) == (if self.sees(from, point) {
                targets.len()
            } else {
                0
            }),
        decreases targets.len(),
    {
        if targets.len() > 0 {
            self.lemma_seen_all_or_none(from, targets.drop_last(), point);
            assert(targets.last() == point);
        }
    }
}

} // verus!
