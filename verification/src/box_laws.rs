//! What holds of the slab test on boxes: the order of the parameters it
//! compares, and that a box is met by every line that meets a box inside it.

use crate::bounding_box::{BoundingBox, slab};
use crate::vector::{Frac, Vec3};
use vstd::prelude::*;

verus! {

/// A parameter at which a line may enter: finite, or minus infinity.
pub open spec fn is_entry(f: Frac) -> bool {
    f.den > 0 || (f.den == 0 && f.num < 0)
}

/// A parameter at which a line may leave: finite, or plus infinity.
pub open spec fn is_exit(f: Frac) -> bool {
    f.den > 0 || (f.den == 0 && f.num > 0)
}

/// The order of fractions carries over a finite one in the middle.
pub proof fn lemma_le_transitive(x: Frac, y: Frac, z: Frac)
    by (nonlinear_arith)
    requires
        x.den >= 0,
        y.den > 0,
        z.den >= 0,
        x.le(y),
        y.le(z),
    ensures
        x.le(z),
{
    assert(x.num * y.den * z.den <= y.num * x.den * z.den);
    assert(y.num * z.den * x.den <= z.num * y.den * x.den);
    assert((x.num * z.den) * y.den <= (z.num * x.den) * y.den);
}

/// The order carries over from one entry to another.
pub proof fn lemma_le_over_entry(x: Frac, y: Frac, z: Frac)
    requires
        is_entry(x),
        is_entry(y),
        z.den >= 0,
        x.le(y),
        y.le(z),
    ensures
        x.le(z),
{
    if y.den > 0 {
        lemma_le_transitive(x, y, z);
    } else {
        assert(x.den == 0) by (nonlinear_arith)
            requires
                x.den >= 0,
                y.num < 0,
                0 <= y.num * x.den,
        ;
        assert(x.num * z.den <= 0) by (nonlinear_arith)
            requires
                x.num < 0,
                z.den >= 0,
        ;
    }
}

/// The order carries over from one exit to another.
pub proof fn lemma_le_over_exit(x: Frac, y: Frac, z: Frac)
    requires
        x.den >= 0,
        is_exit(y),
        is_exit(z),
        x.le(y),
        y.le(z),
    ensures
        x.le(z),
{
    if y.den > 0 {
        lemma_le_transitive(x, y, z);
    } else {
        assert(z.den == 0) by (nonlinear_arith)
            requires
                z.den >= 0,
                y.num > 0,
                y.num * z.den <= 0,
        ;
        assert(0 <= z.num * x.den) by (nonlinear_arith)
            requires
                z.num > 0,
                x.den >= 0,
        ;
    }
}

/// The larger of two fractions is one of them and no smaller than either.
pub proof fn lemma_max_bounds(x: Frac, y: Frac)
    ensures
        x.max(y) == x || x.max(y) == y,
        x.le(x.max(y)),
        y.le(x.max(y)),
{
}

/// The smaller of two fractions is one of them and no larger than either.
pub proof fn lemma_min_bounds(x: Frac, y: Frac)
    ensures
        x.min(y) == x || x.min(y) == y,
        x.min(y).le(x),
        x.min(y).le(y),
{
}

/// What the test of one slab yields is an entry and an exit.
pub proof fn lemma_slab_kinds(lo: int, hi: int, o: int, d: int)
    ensures
        slab(lo, hi, o, d) matches Some((a, b)) ==> is_entry(a) && is_exit(b),
{
}

/// A slab that holds another is entered no later and left no earlier.
pub proof fn lemma_slab_monotone(lo_in: int, hi_in: int, lo_out: int, hi_out: int, o: int, d: int)
    requires
        lo_out <= lo_in <= hi_in <= hi_out,
        slab(lo_in, hi_in, o, d).is_some(),
    ensures
        slab(lo_out, hi_out, o, d).is_some(),
        slab(lo_out, hi_out, o, d).unwrap().0.le(slab(lo_in, hi_in, o, d).unwrap().0),
        slab(lo_in, hi_in, o, d).unwrap().1.le(slab(lo_out, hi_out, o, d).unwrap().1),
{
    if d > 0 {
        lemma_same_denominator(lo_in - o, hi_in - o, d);
        lemma_same_denominator(lo_out - o, hi_out - o, d);
        lemma_same_denominator(lo_out - o, lo_in - o, d);
        lemma_same_denominator(hi_in - o, hi_out - o, d);
    } else if d < 0 {
        lemma_same_denominator(o - hi_in, o - lo_in, -d);
        lemma_same_denominator(o - hi_out, o - lo_out, -d);
        lemma_same_denominator(o - hi_out, o - hi_in, -d);
        lemma_same_denominator(o - lo_in, o - lo_out, -d);
    }
}

/// Fractions over one positive denominator are ordered as their numerators.
pub proof fn lemma_same_denominator(a: int, b: int, d: int)
    by (nonlinear_arith)
    requires
        d > 0,
        a <= b,
    ensures
        a * d <= b * d,
        !(b * d < a * d),
        a < b ==> a * d < b * d,
{
}

/// The latest of three entries is one of them, and none of them is later.
pub proof fn lemma_latest_entry(x: Frac, y: Frac, z: Frac)
    requires
        is_entry(x),
        is_entry(y),
        is_entry(z),
    ensures
        ({
            let m = x.max(y).max(z);
            &&& (m == x || m == y || m == z)
            &&& x.le(m)
            &&& y.le(m)
            &&& z.le(m)
        }),
{
    let m1 = x.max(y);
    let m = m1.max(z);
    lemma_max_bounds(x, y);
    lemma_max_bounds(m1, z);
    lemma_le_over_entry(x, m1, m);
    lemma_le_over_entry(y, m1, m);
}

/// The earliest of three exits is one of them, and none of them is earlier.
pub proof fn lemma_earliest_exit(x: Frac, y: Frac, z: Frac)
    requires
        is_exit(x),
        is_exit(y),
        is_exit(z),
    ensures
        ({
            let m = x.min(y).min(z);
            &&& (m == x || m == y || m == z)
            &&& m.le(x)
            &&& m.le(y)
            &&& m.le(z)
        }),
{
    let m1 = x.min(y);
    let m = m1.min(z);
    lemma_min_bounds(x, y);
    lemma_min_bounds(m1, z);
    lemma_le_over_exit(m, m1, x);
    lemma_le_over_exit(m, m1, y);
}

/// An entry of the outer box that is no later than one of the inner box is no
/// later than any exit of the outer box that an exit of the inner box
/// precedes, when the inner box is met.
proof fn lemma_chain(a_out: Frac, a_in: Frac, t_in: Frac, t_out: Frac, b_in: Frac, b_out: Frac)
    requires
        is_entry(a_out),
        is_entry(a_in),
        is_entry(t_in),
        is_exit(t_out),
        is_exit(b_in),
        is_exit(b_out),
        a_out.le(a_in),
        a_in.le(t_in),
        t_in.le(t_out),
        t_out.le(b_in),
        b_in.le(b_out),
    ensures
        a_out.le(b_out),
{
    lemma_le_over_entry(a_out, a_in, t_in);
    lemma_le_over_entry(a_out, t_in, t_out);
    lemma_le_over_exit(a_out, t_out, b_in);
    lemma_le_over_exit(a_out, b_in, b_out);
}

/// A line that meets a box meets every box around it.
pub proof fn lemma_hit_monotone(inner: BoundingBox, outer: BoundingBox, pos: Vec3, dir: Vec3)
    requires
        inner.well_formed(),
        outer.contains(inner),
        inner.hit_by(pos, dir),
    ensures
        outer.hit_by(pos, dir),
{
    let sx_in = slab(inner.p1.x as int, inner.p2.x as int, pos.x as int, dir.x as int);
    let sy_in = slab(inner.p1.y as int, inner.p2.y as int, pos.y as int, dir.y as int);
    let sz_in = slab(inner.p1.z as int, inner.p2.z as int, pos.z as int, dir.z as int);
    let sx_out = slab(outer.p1.x as int, outer.p2.x as int, pos.x as int, dir.x as int);
    let sy_out = slab(outer.p1.y as int, outer.p2.y as int, pos.y as int, dir.y as int);
    let sz_out = slab(outer.p1.z as int, outer.p2.z as int, pos.z as int, dir.z as int);
    assert(sx_in.is_some() && sy_in.is_some() && sz_in.is_some());
    lemma_slab_monotone(
        inner.p1.x as int,
        inner.p2.x as int,
        outer.p1.x as int,
        outer.p2.x as int,
        pos.x as int,
        dir.x as int,
    );
    lemma_slab_monotone(
        inner.p1.y as int,
        inner.p2.y as int,
        outer.p1.y as int,
        outer.p2.y as int,
        pos.y as int,
        dir.y as int,
    );
    lemma_slab_monotone(
        inner.p1.z as int,
        inner.p2.z as int,
        outer.p1.z as int,
        outer.p2.z as int,
        pos.z as int,
        dir.z as int,
    );
    lemma_slab_kinds(inner.p1.x as int, inner.p2.x as int, pos.x as int, dir.x as int);
    lemma_slab_kinds(inner.p1.y as int, inner.p2.y as int, pos.y as int, dir.y as int);
    lemma_slab_kinds(inner.p1.z as int, inner.p2.z as int, pos.z as int, dir.z as int);
    lemma_slab_kinds(outer.p1.x as int, outer.p2.x as int, pos.x as int, dir.x as int);
    lemma_slab_kinds(outer.p1.y as int, outer.p2.y as int, pos.y as int, dir.y as int);
    lemma_slab_kinds(outer.p1.z as int, outer.p2.z as int, pos.z as int, dir.z as int);
    let (ix, ox) = sx_in.unwrap();
    let (iy, oy) = sy_in.unwrap();
    let (iz, oz) = sz_in.unwrap();
    let (jx, px) = sx_out.unwrap();
    let (jy, py) = sy_out.unwrap();
    let (jz, pz) = sz_out.unwrap();
    let t_in = ix.max(iy).max(iz);
    let t_out = ox.min(oy).min(oz);
    let u_in = jx.max(jy).max(jz);
    let u_out = px.min(py).min(pz);
    lemma_latest_entry(ix, iy, iz);
    lemma_earliest_exit(ox, oy, oz);
    lemma_latest_entry(jx, jy, jz);
    lemma_earliest_exit(px, py, pz);
    // the inner entry on the axis that gives the outer box its entry
    let a_in = if u_in == jx {
        ix
    } else if u_in == jy {
        iy
    } else {
        iz
    };
    // the inner exit on the axis that gives the outer box its exit
    let b_in = if u_out == px {
        ox
    } else if u_out == py {
        oy
    } else {
        oz
    };
    lemma_chain(u_in, a_in, t_in, t_out, b_in, u_out);
}

/// The point at the parameter `t` of the line `o + t * d` lies in the slab
/// `lo ..= hi`.
pub open spec fn in_slab(lo: int, hi: int, o: int, d: int, t: Frac) -> bool {
    lo * t.den <= o * t.den + t.num * d <= hi * t.den
}

/// A line that has a point in a slab enters the slab no later than at that
/// point and leaves it no earlier.
pub proof fn lemma_slab_holds_point(lo: int, hi: int, o: int, d: int, t: Frac)
    requires
        t.den > 0,
        in_slab(lo, hi, o, d, t),
    ensures
        slab(lo, hi, o, d).is_some(),
        slab(lo, hi, o, d).unwrap().0.le(t),
        t.le(slab(lo, hi, o, d).unwrap().1),
{
    let m = t.den;
    let n = t.num;
    if d == 0 {
        assert(lo <= o <= hi) by (nonlinear_arith)
            requires
                m > 0,
                lo * m <= o * m + n * 0 <= hi * m,
        ;
    } else {
        let a = Frac::of(lo - o, d);
        let b = Frac::of(hi - o, d);
        assert((lo - o) * m <= n * d <= (hi - o) * m) by (nonlinear_arith)
            requires
                lo * m <= o * m + n * d <= hi * m,
        ;
        if d > 0 {
            assert(a.le(t) && t.le(b));
        } else {
            assert(b.le(t) && t.le(a)) by (nonlinear_arith)
                requires
                    d < 0,
                    (lo - o) * m <= n * d <= (hi - o) * m,
                    a.num == -(lo - o),
                    a.den == -d,
                    b.num == -(hi - o),
                    b.den == -d,
                    m == t.den,
                    n == t.num,
            ;
        }
        if d > 0 {
            lemma_le_transitive(a, t, b);
        } else {
            if !b.lt(a) {
                lemma_le_transitive(a, b, t);
                lemma_le_transitive(t, a, b);
            }
        }
    }
}

/// A line with a point in a box meets the box.
pub proof fn lemma_line_point_hits(b: BoundingBox, pos: Vec3, dir: Vec3, t: Frac)
    requires
        t.den > 0,
        in_slab(b.p1.x as int, b.p2.x as int, pos.x as int, dir.x as int, t),
        in_slab(b.p1.y as int, b.p2.y as int, pos.y as int, dir.y as int, t),
        in_slab(b.p1.z as int, b.p2.z as int, pos.z as int, dir.z as int, t),
    ensures
        b.hit_by(pos, dir),
{
    lemma_slab_holds_point(b.p1.x as int, b.p2.x as int, pos.x as int, dir.x as int, t);
    lemma_slab_holds_point(b.p1.y as int, b.p2.y as int, pos.y as int, dir.y as int, t);
    lemma_slab_holds_point(b.p1.z as int, b.p2.z as int, pos.z as int, dir.z as int, t);
    lemma_slab_kinds(b.p1.x as int, b.p2.x as int, pos.x as int, dir.x as int);
    lemma_slab_kinds(b.p1.y as int, b.p2.y as int, pos.y as int, dir.y as int);
    lemma_slab_kinds(b.p1.z as int, b.p2.z as int, pos.z as int, dir.z as int);
    let (ix, ox) = slab(b.p1.x as int, b.p2.x as int, pos.x as int, dir.x as int).unwrap();
    let (iy, oy) = slab(b.p1.y as int, b.p2.y as int, pos.y as int, dir.y as int).unwrap();
    let (iz, oz) = slab(b.p1.z as int, b.p2.z as int, pos.z as int, dir.z as int).unwrap();
    lemma_latest_entry(ix, iy, iz);
    lemma_earliest_exit(ox, oy, oz);
    lemma_le_transitive(ix.max(iy).max(iz), t, ox.min(oy).min(oz));
}

/// A line that starts inside a box meets the box.
pub proof fn lemma_origin_inside_hits(b: BoundingBox, pos: Vec3, dir: Vec3)
    requires
        b.p1.x <= pos.x <= b.p2.x,
        b.p1.y <= pos.y <= b.p2.y,
        b.p1.z <= pos.z <= b.p2.z,
    ensures
        b.hit_by(pos, dir),
{
    lemma_line_point_hits(b, pos, dir, Frac { num: 0, den: 1 });
}

} // verus!
