//! Directions of reflected and refracted rays, in whole numbers.
//!
//! Both functions take the vector `vec` that points away from the surface,
//! against the incoming ray, and the normal on the side of `vec`. Neither
//! needs a vector of length one: lengths are divided out only where a
//! direction is brought within range.

use crate::arith::{
    longest, floor_div, floor_sqrt, isqrt, lemma_floor_sqrt_unique, lemma_mul_bound, lemma_quotient_between,
    mul_grid,
};
use crate::geometry_laws::{lemma_lagrange, lemma_parallel_scaling};
use crate::scene::Side;
use crate::shading::cosine;
use crate::vector::{rescale, rescaled, COORD_MAX, UNIT, Vec3};
use vstd::prelude::*;

verus! {

/// The largest refraction index that [`refract_ray`] accepts.
pub const INDEX_MAX: i32 = 1048576;

/// The mirror image of `v` at the line along `n`, times the squared length
/// of `n`: `2 (n . v) n - |n|^2 v`.
pub open spec fn mirrored(v: (int, int, int), n: Vec3) -> (int, int, int) {
    let nv = n.x * v.0 + n.y * v.1 + n.z * v.2;
    let nn = n.norm2();
    (2 * nv * n.x - nn * v.0, 2 * nv * n.y - nn * v.1, 2 * nv * n.z - nn * v.2)
}

/// The direction of the reflected ray: the mirror image of `vec` at the
/// normal.
pub open spec fn reflected(vec: Vec3, normal: Vec3) -> (int, int, int) {
    mirrored((vec.x as int, vec.y as int, vec.z as int), normal)
}

/// The discriminant of Snell's law: positive multiples of the squared
/// cosine of the angle of refraction. Where it is negative the ray is
/// reflected as a whole.
pub open spec fn snell_discriminant(vec: Vec3, normal: Vec3, n1: int, n2: int) -> int {
    let nn = normal.norm2();
    let vv = vec.norm2();
    let nv = normal.dot(vec);
    n2 * n2 * (nn * vv) - n1 * n1 * (nn * vv - nv * nv)
}

/// The direction of the refracted ray, for a square root `root` of the
/// discriminant: `n1 ((n . v) n - |n|^2 v) - root n`.
pub open spec fn refracted_with(vec: Vec3, normal: Vec3, n1: int, root: int) -> (int, int, int) {
    let nn = normal.norm2();
    let nv = normal.dot(vec);
    (
        n1 * (nv * normal.x - nn * vec.x) - root * normal.x,
        n1 * (nv * normal.y - nn * vec.y) - root * normal.y,
        n1 * (nv * normal.z - nn * vec.z) - root * normal.z,
    )
}

/// The direction of the refracted ray where the ray passes from a medium
/// with the index `n1` into one with the index `n2`, or `None` where it is
/// reflected as a whole. The square root of the discriminant is rounded
/// down.
pub open spec fn refracted(vec: Vec3, normal: Vec3, n1: int, n2: int) -> Option<(int, int, int)> {
    let disc = snell_discriminant(vec, normal, n1, n2);
    if disc >= 0 {
        Some(refracted_with(vec, normal, n1, floor_sqrt(disc)))
    } else {
        None
    }
}

fn combine(a: i128, x: i32, b: i128, y: i32) -> (r: i128)
    requires
        -0x1_0000_0000_0000_0000 <= a <= 0x1_0000_0000_0000_0000,
        -0x1_0000_0000_0000_0000 <= b <= 0x1_0000_0000_0000_0000,
    ensures
        r == a * x - b * y,
        -0x1_0000_0000_0000_0000_0000_0000 <= r <= 0x1_0000_0000_0000_0000_0000_0000,
{
    proof {
        lemma_mul_bound(a as int, x as int, 0x1_0000_0000_0000_0000, 0x8000_0000);
        lemma_mul_bound(b as int, y as int, 0x1_0000_0000_0000_0000, 0x8000_0000);
    }
    a * (x as i128) - b * (y as i128)
}

/// The direction into which a surface with the normal `normal` reflects the
/// ray that comes in against `vec`, brought within range.
pub fn reflect_ray(vec: Vec3, normal: Vec3) -> (r: Vec3)
    requires
        vec.in_range(),
        normal.in_range(),
    ensures
        r == rescaled(reflected(vec, normal)),
        r.in_range(),
{
    proof {
        crate::geometry::lemma_dot_bound(normal, vec);
        crate::geometry::lemma_dot_bound(normal, normal);
    }
    let nv: i128 = normal.dot_product(&vec);
    let nn: i128 = normal.dot_product(&normal);
    rescale(
        (
            combine(2 * nv, normal.x, nn, vec.x),
            combine(2 * nv, normal.y, nn, vec.y),
            combine(2 * nv, normal.z, nn, vec.z),
        ),
    )
}

/// The direction into which a surface with the normal `normal` refracts the
/// ray that comes in against `vec`, from a medium with the refraction index
/// `n1` into one with the index `n2`, brought within range; or `None` where
/// the ray is reflected as a whole.
pub fn refract_ray(vec: Vec3, normal: Vec3, n1: i32, n2: i32) -> (r: Option<Vec3>)
    requires
        vec.in_range(),
        normal.in_range(),
        -INDEX_MAX <= n1 <= INDEX_MAX,
        -INDEX_MAX <= n2 <= INDEX_MAX,
    ensures
        match r {
            Some(d) => refracted(vec, normal, n1 as int, n2 as int) matches Some(exact) && d
                == rescaled(exact),
            None => refracted(vec, normal, n1 as int, n2 as int) is None,
        },
{
    proof {
        crate::geometry::lemma_dot_bound(normal, vec);
        crate::geometry::lemma_dot_bound(normal, normal);
        crate::geometry::lemma_dot_bound(vec, vec);
    }
    let nv: i128 = normal.dot_product(&vec);
    let nn: i128 = normal.dot_product(&normal);
    let vv: i128 = vec.dot_product(&vec);
    proof {
        lemma_mul_bound(nn as int, vv as int, 0xc0_0000_0000, 0xc0_0000_0000);
        lemma_mul_bound(nv as int, nv as int, 0xc0_0000_0000, 0xc0_0000_0000);
        lemma_mul_bound(n1 as int, n1 as int, 0x10_0000, 0x10_0000);
        lemma_mul_bound(n2 as int, n2 as int, 0x10_0000, 0x10_0000);
    }
    let both: i128 = nn * vv;
    let sines: i128 = both - nv * nv;
    let q1: i128 = (n1 as i128) * (n1 as i128);
    let q2: i128 = (n2 as i128) * (n2 as i128);
    proof {
        lemma_mul_bound(q2 as int, both as int, 0x100_0000_0000, 0x9000_0000_0000_0000_0000);
        lemma_mul_bound(q1 as int, sines as int, 0x100_0000_0000, 0x1_2000_0000_0000_0000_0000);
    }
    let disc: i128 = q2 * both - q1 * sines;
    if disc < 0 {
        return None;
    }
    let root: i128 = isqrt(disc) as i128;
    proof {
        lemma_mul_bound(n1 as int, nv as int, 0x10_0000, 0xc0_0000_0000);
        lemma_mul_bound(n1 as int, nn as int, 0x10_0000, 0xc0_0000_0000);
    }
    let along: i128 = (n1 as i128) * nv - root;
    let across: i128 = (n1 as i128) * nn;
    let exact: (i128, i128, i128) = (
        combine(along, normal.x, across, vec.x),
        combine(along, normal.y, across, vec.y),
        combine(along, normal.z, across, vec.z),
    );
    proof {
        let e = refracted_with(vec, normal, n1 as int, root as int);
        assert(e.0 == along * normal.x - across * vec.x) by (nonlinear_arith)
            requires
                e.0 == n1 * (nv * normal.x - nn * vec.x) - root * normal.x,
                along == n1 * nv - root,
                across == n1 * nn,
        ;
        assert(e.1 == along * normal.y - across * vec.y) by (nonlinear_arith)
            requires
                e.1 == n1 * (nv * normal.y - nn * vec.y) - root * normal.y,
                along == n1 * nv - root,
                across == n1 * nn,
        ;
        assert(e.2 == along * normal.z - across * vec.z) by (nonlinear_arith)
            requires
                e.2 == n1 * (nv * normal.z - nn * vec.z) - root * normal.z,
                along == n1 * nv - root,
                across == n1 * nn,
        ;
    }
    Some(rescale(exact))
}

/// The fifth power.
pub open spec fn fifth(x: int) -> int {
    x * x * x * x * x
}

/// The share of the light that a surface reflects, by Schlick's
/// approximation of Fresnel's equations, as a fixed-point number: with
/// `r0`, the square of `(n1 - n2) / (n1 + n2)`, it is
/// `r0 + (1 - r0) (1 - cos)^5`, rounded down. Here it stands as one
/// fraction over `(n1 + n2)^2` times the fifth power of one.
pub open spec fn schlick(n1: int, n2: int, cos: int) -> int {
    let apart = (n1 - n2) * (n1 - n2);
    let whole = (n1 + n2) * (n1 + n2);
    (UNIT * (apart * fifth(UNIT as int) + (whole - apart) * fifth(UNIT - cos))) / (whole * fifth(
        UNIT as int,
    ))
}

/// The fifth power of a fixed-point number between zero and one.
fn fifth_power(x: i32) -> (r: i128)
    requires
        0 <= x <= UNIT,
    ensures
        r == fifth(x as int),
        0 <= r <= 0x1000_0000_0000_0000,
{
    proof {
        assert(UNIT == 4096);
        assert(0 <= x * x <= 0x100_0000) by (nonlinear_arith)
            requires
                0 <= x <= 4096,
        ;
        assert(0 <= x * x * x <= 0x10_0000_0000) by (nonlinear_arith)
            requires
                0 <= x <= 4096,
                0 <= x * x <= 0x100_0000,
        ;
        assert(0 <= x * x * x * x <= 0x1_0000_0000_0000) by (nonlinear_arith)
            requires
                0 <= x <= 4096,
                0 <= x * x * x <= 0x10_0000_0000,
        ;
        assert(0 <= x * x * x * x * x <= 0x1000_0000_0000_0000) by (nonlinear_arith)
            requires
                0 <= x <= 4096,
                0 <= x * x * x * x <= 0x1_0000_0000_0000,
        ;
    }
    let x: i128 = x as i128;
    x * x * x * x * x
}

/// Computes the share of the light that a surface between media with the
/// refraction indices `n1` and `n2` reflects, for light that falls at an
/// angle with the cosine `cos`.
pub fn fresnel(n1: i32, n2: i32, cos: i32) -> (r: i32)
    requires
        0 <= n1 <= INDEX_MAX,
        0 <= n2 <= INDEX_MAX,
        0 < n1 + n2,
        0 <= cos <= UNIT,
    ensures
        r == schlick(n1 as int, n2 as int, cos as int),
        0 <= r <= UNIT,
{
    let apart: i128 = mul_grid(n1 - n2, n1 - n2) as i128;
    let whole: i128 = mul_grid(n1 + n2, n1 + n2) as i128;
    let one: i128 = fifth_power(UNIT);
    let away: i128 = fifth_power(UNIT - cos);
    proof {
        assert(UNIT == 4096 && INDEX_MAX == 0x10_0000);
        lemma_mul_bound((n1 - n2) as int, (n1 - n2) as int, 0x10_0000, 0x10_0000);
        lemma_mul_bound((n1 + n2) as int, (n1 + n2) as int, 0x20_0000, 0x20_0000);
        assert(0 <= apart <= whole && whole > 0) by (nonlinear_arith)
            requires
                apart == (n1 - n2) * (n1 - n2),
                whole == (n1 + n2) * (n1 + n2),
                0 <= n1,
                0 <= n2,
                0 < n1 + n2,
        ;
        assert(one == 0x1000_0000_0000_0000) by (nonlinear_arith)
            requires
                one == 4096 * 4096 * 4096 * 4096 * 4096,
        ;
        lemma_mul_bound(apart as int, one as int, 0x400_0000_0000, 0x1000_0000_0000_0000);
        lemma_mul_bound((whole - apart) as int, away as int, 0x400_0000_0000, 0x1000_0000_0000_0000);
        lemma_mul_bound(whole as int, one as int, 0x400_0000_0000, 0x1000_0000_0000_0000);
        assert(0 <= apart * one + (whole - apart) * away <= whole * one) by (nonlinear_arith)
            requires
                0 <= apart <= whole,
                0 <= away <= one,
        ;
        assert(whole * one > 0) by (nonlinear_arith)
            requires
                whole > 0,
                one > 0,
        ;
        lemma_mul_bound(
            4096,
            apart * one + (whole - apart) * away,
            4096,
            0x40_0000_0000_0000_0000_0000_0000,
        );
        assert(0 <= UNIT * (apart * one + (whole - apart) * away) <= UNIT * (whole * one))
            by (nonlinear_arith)
            requires
                0 <= apart * one + (whole - apart) * away <= whole * one,
                UNIT == 4096,
        ;
        lemma_quotient_between(
            UNIT * (apart * one + (whole - apart) * away),
            whole * one,
            0,
            UNIT as int,
        );
    }
    floor_div((UNIT as i128) * (apart * one + (whole - apart) * away), whole * one) as i32
}

/// What becomes of a ray at a surface that lets light through.
#[derive(Debug, Clone, Copy, PartialEq, Eq, Structural)]
pub enum Refraction {
    /// The ray is bent into `direction`, and the share `reflected` of its
    /// light is reflected.
    Bent { direction: Vec3, reflected: i32 },
    /// All light is reflected: there is no refracted ray.
    TotalReflection,
}

/// The refraction indices before and behind a surface of a body with the
/// index `index` in empty space: from outside the ray passes from one into
/// the index, from inside it passes from the index into one.
pub open spec fn indices(side: Side, index: int) -> (int, int) {
    match side {
        Side::Front => (UNIT as int, index),
        Side::Back => (index, UNIT as int),
    }
}

/// What becomes of a ray at a surface: by Snell's law it is bent or
/// reflected as a whole; where it is bent, Schlick's approximation gives
/// the share that is reflected.
pub open spec fn refraction(vec: Vec3, normal: Vec3, side: Side, index: int) -> Refraction {
    let (n1, n2) = indices(side, index);
    match refracted(vec, normal, n1, n2) {
        Some(exact) => Refraction::Bent {
            direction: rescaled(exact),
            reflected: schlick(n1, n2, crate::shading::lambert(normal, vec)) as i32,
        },
        None => Refraction::TotalReflection,
    }
}

/// Finds what becomes of the ray that comes in against `vec` at a surface
/// with the normal `normal`, struck on the side `side`, of a body with the
/// refraction index `index`.
pub fn refract(vec: Vec3, normal: Vec3, side: Side, index: i32) -> (r: Refraction)
    requires
        vec.in_range(),
        normal.in_range(),
        0 <= index <= INDEX_MAX,
    ensures
        r == refraction(vec, normal, side, index as int),
{
    let (n1, n2) = match side {
        Side::Front => (UNIT, index),
        Side::Back => (index, UNIT),
    };
    match refract_ray(vec, normal, n1, n2) {
        Some(direction) => Refraction::Bent {
            direction,
            reflected: fresnel(n1, n2, cosine(normal, vec)),
        },
        None => Refraction::TotalReflection,
    }
}

/// A vector mirrored twice at one normal is the vector again, times the
/// fourth power of the length of the normal: reflection undoes itself.
pub proof fn lemma_mirrored_twice(v: (int, int, int), n: Vec3)
    ensures
        mirrored(mirrored(v, n), n) == (
            n.norm2() * n.norm2() * v.0,
            n.norm2() * n.norm2() * v.1,
            n.norm2() * n.norm2() * v.2,
        ),
{
    let nn = n.norm2();
    let nv = n.x * v.0 + n.y * v.1 + n.z * v.2;
    let r = mirrored(v, n);
    let a = 2 * nv;
    let nr = n.x * r.0 + n.y * r.1 + n.z * r.2;
    assert(n.x * (a * n.x - nn * v.0) == a * (n.x * n.x) - nn * (n.x * v.0)) by (nonlinear_arith);
    assert(n.y * (a * n.y - nn * v.1) == a * (n.y * n.y) - nn * (n.y * v.1)) by (nonlinear_arith);
    assert(n.z * (a * n.z - nn * v.2) == a * (n.z * n.z) - nn * (n.z * v.2)) by (nonlinear_arith);
    assert(a * (n.x * n.x) + a * (n.y * n.y) + a * (n.z * n.z) == a * (n.x * n.x + n.y * n.y + n.z
        * n.z)) by (nonlinear_arith);
    assert(nn * (n.x * v.0) + nn * (n.y * v.1) + nn * (n.z * v.2) == nn * (n.x * v.0 + n.y * v.1
        + n.z * v.2)) by (nonlinear_arith);
    assert(nr == a * nn - nn * nv);
    assert(nr == nn * nv) by (nonlinear_arith)
        requires
            nr == a * nn - nn * nv,
            a == 2 * nv,
    ;
    lemma_mirror_axis(n.x as int, v.0, nn, nv);
    lemma_mirror_axis(n.y as int, v.1, nn, nv);
    lemma_mirror_axis(n.z as int, v.2, nn, nv);
}

/// One coordinate of a vector that is mirrored twice.
proof fn lemma_mirror_axis(n: int, v: int, nn: int, nv: int)
    ensures
        2 * (nn * nv) * n - nn * (2 * nv * n - nn * v) == nn * nn * v,
{
    assert(nn * (2 * nv * n - nn * v) == 2 * (nn * nv) * n - nn * nn * v) by (nonlinear_arith);
}

/// The mirror image goes along with sums and multiples: the image of
/// `scale * x - y` is `scale` times the image of `x` less the image of `y`.
pub proof fn lemma_mirrored_linear(x: (int, int, int), y: (int, int, int), scale: int, n: Vec3)
    ensures
        mirrored((scale * x.0 - y.0, scale * x.1 - y.1, scale * x.2 - y.2), n) == (
            scale * mirrored(x, n).0 - mirrored(y, n).0,
            scale * mirrored(x, n).1 - mirrored(y, n).1,
            scale * mirrored(x, n).2 - mirrored(y, n).2,
        ),
{
    let nn = n.norm2();
    let nx = n.x * x.0 + n.y * x.1 + n.z * x.2;
    let ny = n.x * y.0 + n.y * y.1 + n.z * y.2;
    let nw = n.x * (scale * x.0 - y.0) + n.y * (scale * x.1 - y.1) + n.z * (scale * x.2 - y.2);
    assert(n.x * (scale * x.0 - y.0) == scale * (n.x * x.0) - n.x * y.0) by (nonlinear_arith);
    assert(n.y * (scale * x.1 - y.1) == scale * (n.y * x.1) - n.y * y.1) by (nonlinear_arith);
    assert(n.z * (scale * x.2 - y.2) == scale * (n.z * x.2) - n.z * y.2) by (nonlinear_arith);
    assert(scale * (n.x * x.0) + scale * (n.y * x.1) + scale * (n.z * x.2) == scale * nx)
        by (nonlinear_arith)
        requires
            nx == n.x * x.0 + n.y * x.1 + n.z * x.2,
    ;
    assert(nw == scale * nx - ny);
    lemma_mirror_linear_axis(n.x as int, x.0, y.0, scale, nn, nx, ny);
    lemma_mirror_linear_axis(n.y as int, x.1, y.1, scale, nn, nx, ny);
    lemma_mirror_linear_axis(n.z as int, x.2, y.2, scale, nn, nx, ny);
}

/// One coordinate of the mirror image of `scale * x - y`.
proof fn lemma_mirror_linear_axis(n: int, x: int, y: int, scale: int, nn: int, nx: int, ny: int)
    ensures
        2 * (scale * nx - ny) * n - nn * (scale * x - y) == scale * (2 * nx * n - nn * x) - (2
            * ny * n - nn * y),
{
    assert(2 * (scale * nx - ny) * n == scale * (2 * nx * n) - 2 * ny * n) by (nonlinear_arith);
    assert(nn * (scale * x - y) == scale * (nn * x) - nn * y) by (nonlinear_arith);
    assert(scale * (2 * nx * n - nn * x) == scale * (2 * nx * n) - scale * (nn * x))
        by (nonlinear_arith);
}

/// What two calls of [`reflect_ray`] give. The first gives the mirror image
/// of `vec` brought within range: with `len` the longest component of the
/// image, each component times [`COORD_MAX`] over `len`, rounded down, which
/// leaves a remainder `rest` below `len`. The mirror image of that
/// direction, of which the second call gives the direction, is the vector
/// `vec` again, but for the rounding: times `len` it is `vec` times
/// [`COORD_MAX`] and the fourth power of the length of the normal, less the
/// mirror image of `rest`.
pub proof fn lemma_reflect_ray_twice(vec: Vec3, normal: Vec3)
    requires
        longest(reflected(vec, normal)) > 0,
    ensures
        ({
            let image = reflected(vec, normal);
            let len = longest(image);
            let once = rescaled(image);
            let rest = (
                COORD_MAX * image.0 - len * once.x,
                COORD_MAX * image.1 - len * once.y,
                COORD_MAX * image.2 - len * once.z,
            );
            let again = reflected(once, normal);
            let fourth = normal.norm2() * normal.norm2();
            &&& once.in_range()
            &&& 0 <= rest.0 < len && 0 <= rest.1 < len && 0 <= rest.2 < len
            &&& len * again.0 == COORD_MAX * (fourth * vec.x) - mirrored(rest, normal).0
            &&& len * again.1 == COORD_MAX * (fourth * vec.y) - mirrored(rest, normal).1
            &&& len * again.2 == COORD_MAX * (fourth * vec.z) - mirrored(rest, normal).2
        }),
{
    let image = reflected(vec, normal);
    let len = longest(image);
    let once = rescaled(image);
    lemma_rescaled_axis(image.0, len);
    lemma_rescaled_axis(image.1, len);
    lemma_rescaled_axis(image.2, len);
    let rest = (
        COORD_MAX * image.0 - len * once.x,
        COORD_MAX * image.1 - len * once.y,
        COORD_MAX * image.2 - len * once.z,
    );
    let scaled = (len * once.x, len * once.y, len * once.z);
    // the image of the direction, times `len`, is the image of the direction times `len`
    lemma_mirrored_linear(
        (once.x as int, once.y as int, once.z as int),
        (0, 0, 0),
        len,
        normal,
    );
    lemma_mirrored_zero(normal);
    // and that is the image of the image times the scale, less the remainder
    lemma_mirrored_linear(image, rest, COORD_MAX as int, normal);
    assert(scaled == (
        COORD_MAX * image.0 - rest.0,
        COORD_MAX * image.1 - rest.1,
        COORD_MAX * image.2 - rest.2,
    ));
    assert((len * once.x - 0, len * once.y - 0, len * once.z - 0) == scaled);
    lemma_mirrored_twice((vec.x as int, vec.y as int, vec.z as int), normal);
}

/// The mirror image of nothing is nothing.
proof fn lemma_mirrored_zero(n: Vec3)
    ensures
        mirrored((0, 0, 0), n) == (0int, 0int, 0int),
{
    let nn = n.norm2();
    assert(n.x * 0 + n.y * 0 + n.z * 0 == 0);
    assert(2 * 0 * n.x - nn * 0 == 0 && 2 * 0 * n.y - nn * 0 == 0 && 2 * 0 * n.z - nn * 0 == 0)
        by (nonlinear_arith);
}

/// One component of a direction that is brought within range, and what the
/// rounding leaves.
proof fn lemma_rescaled_axis(x: int, len: int)
    requires
        len > 0,
        -len <= x <= len,
    ensures
        0 <= COORD_MAX * x - len * ((x * COORD_MAX) / len) < len,
        -COORD_MAX <= (x * COORD_MAX) / len <= COORD_MAX,
{
    vstd::arithmetic::div_mod::lemma_fundamental_div_mod(x * COORD_MAX, len);
    vstd::arithmetic::div_mod::lemma_mod_bound(x * COORD_MAX, len);
    assert(x * COORD_MAX == COORD_MAX * x) by (nonlinear_arith);
    assert(-COORD_MAX * len <= x * COORD_MAX <= COORD_MAX * len) by (nonlinear_arith)
        requires
            -len <= x <= len,
    ;
    lemma_quotient_between(x * COORD_MAX, len, -COORD_MAX as int, COORD_MAX as int);
}

/// The direction into which a ray is reflected, reflected again at the same
/// normal, is the direction against which the ray came.
pub proof fn lemma_reflect_twice(vec: Vec3, normal: Vec3)
    ensures
        mirrored(reflected(vec, normal), normal) == (
            normal.norm2() * normal.norm2() * vec.x,
            normal.norm2() * normal.norm2() * vec.y,
            normal.norm2() * normal.norm2() * vec.z,
        ),
{
    lemma_mirrored_twice((vec.x as int, vec.y as int, vec.z as int), normal);
}

/// Between two media with the same refraction index a ray goes straight on:
/// it leaves the surface against `vec`, whatever the angle at which it came.
pub proof fn lemma_refract_same_index(vec: Vec3, normal: Vec3, n: int)
    requires
        n > 0,
        normal.dot(vec) >= 0,
    ensures
        refracted(vec, normal, n, n) == Some(
            (
                -(n * normal.norm2()) * vec.x,
                -(n * normal.norm2()) * vec.y,
                -(n * normal.norm2()) * vec.z,
            ),
        ),
{
    let nn = normal.norm2();
    let vv = vec.norm2();
    let nv = normal.dot(vec);
    let disc = snell_discriminant(vec, normal, n, n);
    let root = n * nv;
    assert(disc == root * root) by (nonlinear_arith)
        requires
            disc == n * n * (nn * vv) - n * n * (nn * vv - nv * nv),
            root == n * nv,
    ;
    assert(root >= 0 && root * root < (root + 1) * (root + 1)) by (nonlinear_arith)
        requires
            root == n * nv,
            n > 0,
            nv >= 0,
    ;
    lemma_floor_sqrt_unique(root, disc);
    lemma_straight_axis(normal.x as int, vec.x as int, n, nn, nv);
    lemma_straight_axis(normal.y as int, vec.y as int, n, nn, nv);
    lemma_straight_axis(normal.z as int, vec.z as int, n, nn, nv);
}

/// One coordinate of a ray that goes straight on.
proof fn lemma_straight_axis(normal: int, vec: int, n: int, nn: int, nv: int)
    ensures
        n * (nv * normal - nn * vec) - (n * nv) * normal == -(n * nn) * vec,
{
    assert(n * (nv * normal - nn * vec) == (n * nv) * normal - (n * nn) * vec)
        by (nonlinear_arith);
    assert(-(n * nn) * vec == -((n * nn) * vec)) by (nonlinear_arith);
}

/// A ray that meets a surface at a right angle goes straight on, whatever
/// the refraction indices of the two media.
pub proof fn lemma_refract_at_right_angle(vec: Vec3, normal: Vec3, n1: int, n2: int)
    requires
        n2 > 0,
        normal.parallel(vec),
        normal.dot(vec) >= 0,
    ensures
        refracted(vec, normal, n1, n2) == Some(
            (
                -(n2 * normal.norm2()) * vec.x,
                -(n2 * normal.norm2()) * vec.y,
                -(n2 * normal.norm2()) * vec.z,
            ),
        ),
{
    let nn = normal.norm2();
    let vv = vec.norm2();
    let nv = normal.dot(vec);
    lemma_lagrange(normal, vec);
    assert(nn * vv == nv * nv);
    let disc = snell_discriminant(vec, normal, n1, n2);
    let root = n2 * nv;
    assert(disc == root * root) by (nonlinear_arith)
        requires
            disc == n2 * n2 * (nn * vv) - n1 * n1 * (nn * vv - nv * nv),
            nn * vv == nv * nv,
            root == n2 * nv,
    ;
    assert(root >= 0 && root * root < (root + 1) * (root + 1)) by (nonlinear_arith)
        requires
            root == n2 * nv,
            n2 > 0,
            nv >= 0,
    ;
    lemma_floor_sqrt_unique(root, disc);
    // along the normal, the vector times the squared length of the normal is
    // the normal times the scalar product
    assert(vec.parallel(normal)) by (nonlinear_arith)
        requires
            normal.y * vec.z - normal.z * vec.y == 0,
            normal.z * vec.x - normal.x * vec.z == 0,
            normal.x * vec.y - normal.y * vec.x == 0,
            vec.cross(normal) == (
                vec.y * normal.z - vec.z * normal.y,
                vec.z * normal.x - vec.x * normal.z,
                vec.x * normal.y - vec.y * normal.x,
            ),
    ;
    lemma_parallel_scaling(vec, normal);
    assert(vec.dot(normal) == nv) by (nonlinear_arith)
        requires
            nv == normal.x * vec.x + normal.y * vec.y + normal.z * vec.z,
            vec.dot(normal) == vec.x * normal.x + vec.y * normal.y + vec.z * normal.z,
    ;
    lemma_right_angle_axis(normal.x as int, vec.x as int, n1, n2, nn, nv);
    lemma_right_angle_axis(normal.y as int, vec.y as int, n1, n2, nn, nv);
    lemma_right_angle_axis(normal.z as int, vec.z as int, n1, n2, nn, nv);
}

/// One coordinate of a ray that meets the surface at a right angle.
proof fn lemma_right_angle_axis(normal: int, vec: int, n1: int, n2: int, nn: int, nv: int)
    requires
        nn * vec == nv * normal,
    ensures
        n1 * (nv * normal - nn * vec) - (n2 * nv) * normal == -(n2 * nn) * vec,
{
    assert(n1 * (nv * normal - nn * vec) == 0) by (nonlinear_arith)
        requires
            nn * vec == nv * normal,
    ;
    assert((n2 * nv) * normal == (n2 * nn) * vec) by (nonlinear_arith)
        requires
            nn * vec == nv * normal,
    ;
    assert(-(n2 * nn) * vec == -((n2 * nn) * vec)) by (nonlinear_arith);
}

} // verus!
