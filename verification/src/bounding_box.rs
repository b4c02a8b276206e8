//! Axis-aligned boxes and the slab test of a line against them.

use crate::vector::{Frac, Ratio, Vec3};
use vstd::prelude::*;

verus! {

/// An axis-aligned box between two corners. A box that bounds something has
/// `p1 <= p2` in every component.
#[derive(Debug, Clone, Copy, PartialEq, Eq, Structural)]
pub struct BoundingBox {
    pub p1: Vec3,
    pub p2: Vec3,
}

/// Where the line `o + t * d` is inside the slab `lo ..= hi` of one axis: the
/// parameters of entry and exit, or `None` where the line runs beside the slab.
pub open spec fn slab(lo: int, hi: int, o: int, d: int) -> Option<(Frac, Frac)> {
    if d == 0 {
        if o < lo || o > hi {
            None
        } else {
            Some((Frac::neg_infinity(), Frac::infinity()))
        }
    } else {
        let a = Frac::of(lo - o, d);
        let b = Frac::of(hi - o, d);
        if b.lt(a) {
            Some((b, a))
        } else {
            Some((a, b))
        }
    }
}

fn ratio_of(n: i64, d: i64) -> (r: Ratio)
    requires
        n > i64::MIN,
        d > i64::MIN,
    ensures
        r@ == Frac::of(n as int, d as int),
{
    if d < 0 {
        Ratio { num: -n, den: -d }
    } else {
        Ratio { num: n, den: d }
    }
}

fn slab_bounds(lo: i32, hi: i32, o: i32, d: i32) -> (r: Option<(Ratio, Ratio)>)
    ensures
        match r {
            Some((a, b)) => slab(lo as int, hi as int, o as int, d as int) == Some((a@, b@)),
            None => slab(lo as int, hi as int, o as int, d as int).is_none(),
        },
{
    if d == 0 {
        if o < lo || o > hi {
            None
        } else {
            Some((Ratio { num: -1, den: 0 }, Ratio { num: 1, den: 0 }))
        }
    } else {
        let a = ratio_of(lo as i64 - o as i64, d as i64);
        let b = ratio_of(hi as i64 - o as i64, d as i64);
        if b.less_than(&a) {
            Some((b, a))
        } else {
            Some((a, b))
        }
    }
}

fn larger(a: Ratio, b: Ratio) -> (r: Ratio)
    ensures
        r@ == a@.max(b@),
{
    if a.less_than(&b) {
        b
    } else {
        a
    }
}

fn smaller(a: Ratio, b: Ratio) -> (r: Ratio)
    ensures
        r@ == a@.min(b@),
{
    if b.less_than(&a) {
        b
    } else {
        a
    }
}

impl BoundingBox {
    pub fn new(x1: i32, y1: i32, z1: i32, x2: i32, y2: i32, z2: i32) -> (b: BoundingBox)
        ensures
            b.p1 == (Vec3 { x: x1, y: y1, z: z1 }),
            b.p2 == (Vec3 { x: x2, y: y2, z: z2 }),
    {
        BoundingBox { p1: Vec3 { x: x1, y: y1, z: z1 }, p2: Vec3 { x: x2, y: y2, z: z2 } }
    }

    /// The first corner is nowhere beyond the second.
    pub open spec fn well_formed(self) -> bool {
        &&& self.p1.x <= self.p2.x
        &&& self.p1.y <= self.p2.y
        &&& self.p1.z <= self.p2.z
    }

    /// `other` lies inside this box.
    pub open spec fn contains(self, other: BoundingBox) -> bool {
        &&& self.p1.x <= other.p1.x && other.p2.x <= self.p2.x
        &&& self.p1.y <= other.p1.y && other.p2.y <= self.p2.y
        &&& self.p1.z <= other.p1.z && other.p2.z <= self.p2.z
    }

    /// The slab test: the parameter at which the line through `pos` along
    /// `dir` enters the box, or `None` where it passes beside it. The entry
    /// is the latest of the three entries into the slabs, and the line meets
    /// the box when that is no later than the earliest of the three exits.
    pub open spec fn entry(self, pos: Vec3, dir: Vec3) -> Option<Frac> {
        match (
            slab(self.p1.x as int, self.p2.x as int, pos.x as int, dir.x as int),
            slab(self.p1.y as int, self.p2.y as int, pos.y as int, dir.y as int),
            slab(self.p1.z as int, self.p2.z as int, pos.z as int, dir.z as int),
        ) {
            (Some((in_x, out_x)), Some((in_y, out_y)), Some((in_z, out_z))) => {
                let t_in = in_x.max(in_y).max(in_z);
                let t_out = out_x.min(out_y).min(out_z);
                if t_in.le(t_out) {
                    Some(t_in)
                } else {
                    None
                }
            },
            _ => None,
        }
    }

    /// The line through `pos` along `dir` meets the box.
    pub open spec fn hit_by(self, pos: Vec3, dir: Vec3) -> bool {
        self.entry(pos, dir).is_some()
    }

    /// The smallest box that holds both.
    pub open spec fn union_with(self, other: BoundingBox) -> BoundingBox {
        BoundingBox {
            p1: Vec3 {
                x: if other.p1.x < self.p1.x { other.p1.x } else { self.p1.x },
                y: if other.p1.y < self.p1.y { other.p1.y } else { self.p1.y },
                z: if other.p1.z < self.p1.z { other.p1.z } else { self.p1.z },
            },
            p2: Vec3 {
                x: if other.p2.x > self.p2.x { other.p2.x } else { self.p2.x },
                y: if other.p2.y > self.p2.y { other.p2.y } else { self.p2.y },
                z: if other.p2.z > self.p2.z { other.p2.z } else { self.p2.z },
            },
        }
    }

    /// Tests the line through `pos` along `dir` against the box and returns
    /// the parameter of entry. The entry is negative where `pos` is past the
    /// near face, and minus infinity where `dir` is zero and `pos` inside.
    pub fn intersect(&self, pos: Vec3, dir: Vec3) -> (r: Option<Ratio>)
        ensures
            match r {
                Some(t) => self.entry(pos, dir) == Some(t@),
                None => self.entry(pos, dir).is_none(),
            },
    {
        let (in_x, out_x) = match slab_bounds(self.p1.x, self.p2.x, pos.x, dir.x) {
            Some(b) => b,
            None => { return None; },
        };
        let (in_y, out_y) = match slab_bounds(self.p1.y, self.p2.y, pos.y, dir.y) {
            Some(b) => b,
            None => { return None; },
        };
        let (in_z, out_z) = match slab_bounds(self.p1.z, self.p2.z, pos.z, dir.z) {
            Some(b) => b,
            None => { return None; },
        };
        let t_in = larger(larger(in_x, in_y), in_z);
        let t_out = smaller(smaller(out_x, out_y), out_z);
        if t_in.at_most(&t_out) {
            Some(t_in)
        } else {
            None
        }
    }

    /// Grows the box until it also holds `other`.
    pub fn union(&mut self, other: &BoundingBox)
        ensures
            *final(self) == old(self).union_with(*other),
    {
        if other.p1.x < self.p1.x {
            self.p1.x = other.p1.x;
        }
        if other.p1.y < self.p1.y {
            self.p1.y = other.p1.y;
        }
        if other.p1.z < self.p1.z {
            self.p1.z = other.p1.z;
        }
        if other.p2.x > self.p2.x {
            self.p2.x = other.p2.x;
        }
        if other.p2.y > self.p2.y {
            self.p2.y = other.p2.y;
        }
        if other.p2.z > self.p2.z {
            self.p2.z = other.p2.z;
        }
    }
}

/// What has a box around it.
pub trait Bounded {
    fn bounding_box(&self) -> BoundingBox;
}

/// One of the three coordinate axes.
#[derive(Debug, Clone, Copy, PartialEq, Eq, Structural)]
pub enum Axis {
    X,
    Y,
    Z,
}

impl BoundingBox {
    /// The lower bound along `axis`.
    pub open spec fn low(self, axis: Axis) -> int {
        match axis {
            Axis::X => self.p1.x as int,
            Axis::Y => self.p1.y as int,
            Axis::Z => self.p1.z as int,
        }
    }

    /// The upper bound along `axis`.
    pub open spec fn high(self, axis: Axis) -> int {
        match axis {
            Axis::X => self.p2.x as int,
            Axis::Y => self.p2.y as int,
            Axis::Z => self.p2.z as int,
        }
    }

    /// The axis along which the box is longest: x where it is strictly the
    /// longest, else y where that is longer than z, else z.
    pub open spec fn longest_axis(self) -> Axis {
        let x_size = self.p2.x - self.p1.x;
        let y_size = self.p2.y - self.p1.y;
        let z_size = self.p2.z - self.p1.z;
        if x_size > y_size && x_size > z_size {
            Axis::X
        } else if y_size > z_size {
            Axis::Y
        } else {
            Axis::Z
        }
    }

    pub fn pick_axis(&self) -> (axis: Axis)
        ensures
            axis == self.longest_axis(),
    {
        let x_size: i64 = self.p2.x as i64 - self.p1.x as i64;
        let y_size: i64 = self.p2.y as i64 - self.p1.y as i64;
        let z_size: i64 = self.p2.z as i64 - self.p1.z as i64;
        if x_size > y_size && x_size > z_size {
            Axis::X
        } else if y_size > z_size {
            Axis::Y
        } else {
            Axis::Z
        }
    }

    pub fn low_high(&self, axis: Axis) -> (r: (i64, i64))
        ensures
            r.0 == self.low(axis),
            r.1 == self.high(axis),
    {
        match axis {
            Axis::X => (self.p1.x as i64, self.p2.x as i64),
            Axis::Y => (self.p1.y as i64, self.p2.y as i64),
            Axis::Z => (self.p1.z as i64, self.p2.z as i64),
        }
    }
}

} // verus!
