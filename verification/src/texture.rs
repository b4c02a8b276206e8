//! Textures: colours in fixed point, and the sampling of blank, checkered
//! and bitmap textures at a point.

use crate::arith::{floor_div, lemma_mul_bound, lemma_quotient_between, mul_grid};
use crate::transform::Transform;
use crate::vector::{UNIT, Vec3};
use vstd::prelude::*;

verus! {

/// A colour: red, green and blue in `x`, `y` and `z`, as fixed-point numbers
/// in which [`UNIT`] is full intensity.
pub type Color = Vec3;

/// What a texture holds.
#[derive(Debug)]
pub enum TextureData {
    Blank,
    Image { pixels: Vec<u8>, width: usize, height: usize },
    Checkerboard { color1: Color, color2: Color },
}

/// A texture: what it holds, the colour that tints it, and the transform
/// that places it.
#[derive(Debug)]
pub struct Texture {
    pub data: TextureData,
    pub color: Color,
    pub transform: Transform,
}

/// The part of a coordinate behind the point: what is left of it above the
/// next whole number below.
pub open spec fn fraction(x: int) -> int {
    x % (UNIT as int)
}

/// Each coordinate's part behind the point.
pub open spec fn unit_clamped(point: Vec3) -> Vec3 {
    Vec3 {
        x: fraction(point.x as int) as i32,
        y: fraction(point.y as int) as i32,
        z: fraction(point.z as int) as i32,
    }
}

fn fraction_of(x: i128) -> (r: i32)
    ensures
        r == fraction(x as int),
        0 <= r < UNIT,
{
    let r: i128 = x % (UNIT as i128);
    proof {
        if x < 0 {
            lemma_remainder_of_negative(-x, UNIT as int);
        }
    }
    if r < 0 {
        (r + UNIT as i128) as i32
    } else {
        r as i32
    }
}

/// How the remainder of a negative number comes from the remainder of its
/// magnitude.
pub proof fn lemma_remainder_of_negative(m: int, d: int)
    requires
        m > 0,
        d > 0,
    ensures
        (-m) % d == (if m % d == 0 {
            0
        } else {
            d - m % d
        }),
{
    crate::arith::lemma_floor_of_negative(m, d);
    vstd::arithmetic::div_mod::lemma_fundamental_div_mod(m, d);
    vstd::arithmetic::div_mod::lemma_fundamental_div_mod(-m, d);
    let q = m / d;
    let r = m % d;
    if r == 0 {
        assert(d * (-q) == -(d * q)) by (nonlinear_arith);
    } else {
        assert(d * (-q - 1) == -(d * q) - d) by (nonlinear_arith);
    }
}

/// Brings every coordinate of a point into the range from zero up to, but
/// not including, one: the texture repeats.
pub fn unit_clamp(point: Vec3) -> (r: Vec3)
    ensures
        r == unit_clamped(point),
        0 <= r.x < UNIT,
        0 <= r.y < UNIT,
        0 <= r.z < UNIT,
{
    Vec3 {
        x: fraction_of(point.x as i128),
        y: fraction_of(point.y as i128),
        z: fraction_of(point.z as i128),
    }
}

/// The intensity that a byte stands for: the byte over 255.
pub open spec fn byte_intensity(b: u8) -> int {
    (b * UNIT) / 255
}

/// The colour that the first three bytes stand for.
pub open spec fn bytes_color(bytes: Seq<u8>) -> Color {
    Vec3 {
        x: byte_intensity(bytes[0]) as i32,
        y: byte_intensity(bytes[1]) as i32,
        z: byte_intensity(bytes[2]) as i32,
    }
}

fn intensity(b: u8) -> (r: i32)
    ensures
        r == byte_intensity(b),
        0 <= r <= UNIT,
{
    proof {
        lemma_quotient_between(b * UNIT, 255, 0, UNIT as int);
    }
    (b as i32 * UNIT) / 255
}

/// Reads a colour from three bytes of red, green and blue.
pub fn u8_array_as_color(color: &[u8]) -> (r: Color)
    requires
        color@.len() >= 3,
    ensures
        r == bytes_color(color@),
        0 <= r.x <= UNIT,
        0 <= r.y <= UNIT,
        0 <= r.z <= UNIT,
{
    Vec3 { x: intensity(color[0]), y: intensity(color[1]), z: intensity(color[2]) }
}

/// Where a coordinate falls among `n` pixels: the pixel it falls into, the
/// next pixel, going round at the end, and how far it is on the way to it.
pub open spec fn cell(c: int, n: int) -> (int, int, int) {
    let first = (c * n) / (UNIT as int);
    let next = if first + 1 == n {
        0
    } else {
        first + 1
    };
    (first, next, (c * n) % (UNIT as int))
}

/// One channel blended between the four pixels around a point, by how far
/// the point is on the way from the first to the next along each axis.
pub open spec fn blended(c00: int, c10: int, c01: int, c11: int, xt: int, yt: int) -> int {
    ((UNIT - xt) * (UNIT - yt) * c00 + xt * (UNIT - yt) * c10 + (UNIT - xt) * yt * c01 + xt * yt
        * c11) / ((UNIT as int) * (UNIT as int))
}

/// The colour of the pixel in column `px` of row `py`, in rows of `width`
/// pixels of three bytes each.
pub open spec fn pixel(pixels: Seq<u8>, width: int, px: int, py: int) -> Color {
    bytes_color(pixels.subrange(3 * (py * width + px), 3 * (py * width + px) + 3))
}

/// One channel of a tinted colour: the product of the two.
pub open spec fn tinted_channel(a: int, b: int) -> int {
    let product = (a * b) / (UNIT as int);
    if product < i32::MIN {
        i32::MIN as int
    } else if product > i32::MAX {
        i32::MAX as int
    } else {
        product
    }
}

/// The colour `b` tinted by `a`: the product of the two, channel by
/// channel.
pub open spec fn tinted(a: Color, b: Color) -> Color {
    Vec3 {
        x: tinted_channel(a.x as int, b.x as int) as i32,
        y: tinted_channel(a.y as int, b.y as int) as i32,
        z: tinted_channel(a.z as int, b.z as int) as i32,
    }
}

fn tint_channel(a: i32, b: i32) -> (r: i32)
    ensures
        r == tinted_channel(a as int, b as int),
{
    let product: i128 = floor_div(mul_grid(a, b) as i128, UNIT as i128);
    if product < i32::MIN as i128 {
        i32::MIN
    } else if product > i32::MAX as i128 {
        i32::MAX
    } else {
        product as i32
    }
}

/// Tints the colour `b` by `a`.
pub fn tint(a: Color, b: Color) -> (r: Color)
    ensures
        r == tinted(a, b),
{
    Vec3 { x: tint_channel(a.x, b.x), y: tint_channel(a.y, b.y), z: tint_channel(a.z, b.z) }
}

/// A blend of four values, by weights that add up, lies between the least
/// and the greatest that a value can be.
pub proof fn lemma_blended_between(c00: int, c10: int, c01: int, c11: int, xt: int, yt: int)
    requires
        0 <= c00 <= UNIT,
        0 <= c10 <= UNIT,
        0 <= c01 <= UNIT,
        0 <= c11 <= UNIT,
        0 <= xt < UNIT,
        0 <= yt < UNIT,
    ensures
        0 <= blended(c00, c10, c01, c11, xt, yt) <= UNIT,
        0 <= (UNIT - xt) * (UNIT - yt) * c00 + xt * (UNIT - yt) * c10 + (UNIT - xt) * yt * c01 + xt
            * yt * c11 <= UNIT * (UNIT * UNIT),
        0 <= (UNIT - xt) * (UNIT - yt) <= UNIT * UNIT,
        0 <= xt * (UNIT - yt) <= UNIT * UNIT,
        0 <= (UNIT - xt) * yt <= UNIT * UNIT,
        0 <= xt * yt <= UNIT * UNIT,
{
    let u = UNIT as int;
    let w00 = (u - xt) * (u - yt);
    let w10 = xt * (u - yt);
    let w01 = (u - xt) * yt;
    let w11 = xt * yt;
    assert(w00 >= 0 && w10 >= 0 && w01 >= 0 && w11 >= 0 && w00 + w10 + w01 + w11 == u * u)
        by (nonlinear_arith)
        requires
            w00 == (u - xt) * (u - yt),
            w10 == xt * (u - yt),
            w01 == (u - xt) * yt,
            w11 == xt * yt,
            0 <= xt < u,
            0 <= yt < u,
    ;
    let s = w00 * c00 + w10 * c10 + w01 * c01 + w11 * c11;
    assert(0 <= s <= u * (u * u)) by (nonlinear_arith)
        requires
            s == w00 * c00 + w10 * c10 + w01 * c01 + w11 * c11,
            w00 >= 0 && w10 >= 0 && w01 >= 0 && w11 >= 0,
            w00 + w10 + w01 + w11 == u * u,
            0 <= c00 <= u,
            0 <= c10 <= u,
            0 <= c01 <= u,
            0 <= c11 <= u,
    {
        assert(0 <= w00 * c00 <= w00 * u);
        assert(0 <= w10 * c10 <= w10 * u);
        assert(0 <= w01 * c01 <= w01 * u);
        assert(0 <= w11 * c11 <= w11 * u);
        assert(w00 * u + w10 * u + w01 * u + w11 * u == (w00 + w10 + w01 + w11) * u);
    }
    assert(u * (u * u) == u * (u * u) && 0 * (u * u) == 0) by (nonlinear_arith);
    lemma_quotient_between(s, u * u, 0, u);
}

fn blend(c00: i32, c10: i32, c01: i32, c11: i32, xt: i32, yt: i32) -> (r: i32)
    requires
        0 <= c00 <= UNIT,
        0 <= c10 <= UNIT,
        0 <= c01 <= UNIT,
        0 <= c11 <= UNIT,
        0 <= xt < UNIT,
        0 <= yt < UNIT,
    ensures
        r == blended(c00 as int, c10 as int, c01 as int, c11 as int, xt as int, yt as int),
        0 <= r <= UNIT,
{
    proof {
        lemma_blended_between(c00 as int, c10 as int, c01 as int, c11 as int, xt as int, yt as int);
        lemma_mul_bound((UNIT - xt) * (UNIT - yt), c00 as int, UNIT * UNIT, UNIT as int);
        lemma_mul_bound(xt * (UNIT - yt), c10 as int, UNIT * UNIT, UNIT as int);
        lemma_mul_bound((UNIT - xt) * yt, c01 as int, UNIT * UNIT, UNIT as int);
        lemma_mul_bound(xt * yt, c11 as int, UNIT * UNIT, UNIT as int);
    }
    let u: i64 = UNIT as i64;
    let x: i64 = xt as i64;
    let y: i64 = yt as i64;
    let w00: i64 = (u - x) * (u - y);
    let w10: i64 = x * (u - y);
    let w01: i64 = (u - x) * y;
    let w11: i64 = x * y;
    let sum: i64 = w00 * c00 as i64 + w10 * c10 as i64 + w01 * c01 as i64 + w11 * c11 as i64;
    (sum / (u * u)) as i32
}

fn blend_colors(p00: Color, p10: Color, p01: Color, p11: Color, xt: i32, yt: i32) -> (r: Color)
    requires
        0 <= p00.x <= UNIT && 0 <= p00.y <= UNIT && 0 <= p00.z <= UNIT,
        0 <= p10.x <= UNIT && 0 <= p10.y <= UNIT && 0 <= p10.z <= UNIT,
        0 <= p01.x <= UNIT && 0 <= p01.y <= UNIT && 0 <= p01.z <= UNIT,
        0 <= p11.x <= UNIT && 0 <= p11.y <= UNIT && 0 <= p11.z <= UNIT,
        0 <= xt < UNIT,
        0 <= yt < UNIT,
    ensures
        r.x == blended(p00.x as int, p10.x as int, p01.x as int, p11.x as int, xt as int, yt as int),
        r.y == blended(p00.y as int, p10.y as int, p01.y as int, p11.y as int, xt as int, yt as int),
        r.z == blended(p00.z as int, p10.z as int, p01.z as int, p11.z as int, xt as int, yt as int),
{
    Vec3 {
        x: blend(p00.x, p10.x, p01.x, p11.x, xt, yt),
        y: blend(p00.y, p10.y, p01.y, p11.y, xt, yt),
        z: blend(p00.z, p10.z, p01.z, p11.z, xt, yt),
    }
}

/// Finds the pixel that a coordinate falls into among `n`, the next one, and
/// how far the coordinate is on the way to it.
fn locate(c: i32, n: usize) -> (r: (usize, usize, i32))
    requires
        0 <= c < UNIT,
        n > 0,
    ensures
        r.0 == cell(c as int, n as int).0,
        r.1 == cell(c as int, n as int).1,
        r.2 == cell(c as int, n as int).2,
        r.0 < n,
        r.1 < n,
        0 <= r.2 < UNIT,
{
    proof {
        lemma_mul_bound(c as int, n as int, UNIT as int, 0x1_0000_0000_0000_0000);
        assert(0 <= c * n < UNIT * n) by (nonlinear_arith)
            requires
                0 <= c < UNIT,
                n > 0,
        ;
        vstd::arithmetic::div_mod::lemma_multiply_divide_lt(c * n, UNIT as int, n as int);
        lemma_quotient_between(c * n, UNIT as int, 0, n as int);
    }
    let scaled: u128 = (c as u128) * (n as u128);
    let first: usize = (scaled / (UNIT as u128)) as usize;
    let next: usize = if first + 1 == n {
        0
    } else {
        first + 1
    };
    (first, next, (scaled % (UNIT as u128)) as i32)
}

impl TextureData {
    /// A bitmap has no pixels at all, or rows and columns and three bytes
    /// for every pixel.
    pub open spec fn wf(&self) -> bool {
        *self matches TextureData::Image { pixels, width, height } ==> (width == 0 && height == 0)
            || (width > 0 && height > 0 && 3 * (width * height) <= pixels@.len())
    }

    /// Whether a bitmap, if this is one, has its pixels.
    pub fn is_well_formed(&self) -> (r: bool)
        ensures
            r == self.wf(),
    {
        match self {
            TextureData::Image { pixels, width, height } => {
                if *width == 0 && *height == 0 {
                    true
                } else if *width == 0 || *height == 0 {
                    false
                } else {
                    let len: usize = pixels.len();
                    match width.checked_mul(*height) {
                        Some(count) => match count.checked_mul(3) {
                            Some(bytes) => bytes <= len,
                            None => false,
                        },
                        None => false,
                    }
                }
            },
            _ => true,
        }
    }

    /// The colour of the texture at a point. A blank texture is white
    /// everywhere. A bitmap repeats over the unit square and is blended
    /// between the four pixels around the point; without pixels it is black.
    /// A checkerboard has its first colour where both coordinates are
    /// below a half or both above, and its second colour elsewhere.
    pub open spec fn texel(&self, point: Vec3) -> Color {
        let at = unit_clamped(point);
        match *self {
            TextureData::Blank => Vec3 { x: UNIT, y: UNIT, z: UNIT },
            TextureData::Image { pixels, width, height } => {
                if width + height == 0 {
                    Vec3 { x: 0, y: 0, z: 0 }
                } else {
                    let (x1, x2, xt) = cell(at.x as int, width as int);
                    let (y1, y2, yt) = cell(at.y as int, height as int);
                    let p00 = pixel(pixels@, width as int, x1, y1);
                    let p10 = pixel(pixels@, width as int, x2, y1);
                    let p01 = pixel(pixels@, width as int, x1, y2);
                    let p11 = pixel(pixels@, width as int, x2, y2);
                    Vec3 {
                        x: blended(p00.x as int, p10.x as int, p01.x as int, p11.x as int, xt, yt) as i32,
                        y: blended(p00.y as int, p10.y as int, p01.y as int, p11.y as int, xt, yt) as i32,
                        z: blended(p00.z as int, p10.z as int, p01.z as int, p11.z as int, xt, yt) as i32,
                    }
                }
            },
            TextureData::Checkerboard { color1, color2 } => {
                if (at.x < UNIT / 2 && at.y < UNIT / 2) || (at.x > UNIT / 2 && at.y > UNIT / 2) {
                    color1
                } else {
                    color2
                }
            },
        }
    }

    /// Samples the texture at a point.
    pub fn sample(&self, point: Vec3) -> (r: Color)
        requires
            self.wf(),
        ensures
            r == self.texel(point),
    {
        match self {
            TextureData::Blank => Vec3 { x: UNIT, y: UNIT, z: UNIT },
            TextureData::Image { pixels, width, height } => {
                if *width == 0 && *height == 0 {
                    return Vec3 { x: 0, y: 0, z: 0 };
                }
                let clamped = unit_clamp(point);
                let (x1, x2, xt) = locate(clamped.x, *width);
                let (y1, y2, yt) = locate(clamped.y, *height);
                let p00 = read_pixel(pixels, *width, *height, x1, y1);
                let p10 = read_pixel(pixels, *width, *height, x2, y1);
                let p01 = read_pixel(pixels, *width, *height, x1, y2);
                let p11 = read_pixel(pixels, *width, *height, x2, y2);
                blend_colors(p00, p10, p01, p11, xt, yt)
            },
            TextureData::Checkerboard { color1, color2 } => {
                let clamped = unit_clamp(point);
                if (clamped.x < UNIT / 2 && clamped.y < UNIT / 2) || (clamped.x > UNIT / 2
                    && clamped.y > UNIT / 2) {
                    *color1
                } else {
                    *color2
                }
            },
        }
    }
}

fn read_pixel(pixels: &Vec<u8>, width: usize, height: usize, px: usize, py: usize) -> (r: Color)
    requires
        px < width,
        py < height,
        3 * (width * height) <= pixels@.len(),
    ensures
        r == pixel(pixels@, width as int, px as int, py as int),
        0 <= r.x <= UNIT,
        0 <= r.y <= UNIT,
        0 <= r.z <= UNIT,
{
    proof {
        assert(py * width + px + 1 <= width * height) by (nonlinear_arith)
            requires
                px < width,
                py < height,
        ;
        assert(0 <= py * width) by (nonlinear_arith)
            requires
                0 <= py,
                0 <= width,
        ;
    }
    proof {
        assert(pixels@.len() == pixels.len());
    }
    let start: usize = 3 * (py * width + px);
    u8_array_as_color(vstd::slice::slice_subrange(pixels.as_slice(), start, start + 3))
}

impl Texture {
    /// The transform can be inverted and the bitmap, if there is one, has
    /// its pixels.
    pub open spec fn wf(&self) -> bool {
        self.transform.invertible() && self.data.wf()
    }

    /// Whether the texture can be sampled.
    pub fn is_well_formed(&self) -> (r: bool)
        ensures
            r == self.wf(),
    {
        self.transform.is_invertible() && self.data.is_well_formed()
    }

    /// The point in the texture's own frame, brought into the unit cube.
    pub open spec fn local_point(&self, point: Vec3) -> Vec3 {
        let exact = self.transform.local_exact(point);
        Vec3 {
            x: fraction(exact.0) as i32,
            y: fraction(exact.1) as i32,
            z: fraction(exact.2) as i32,
        }
    }

    /// The colour of the texture at a point: what it holds at the point in
    /// its own frame, tinted by its colour.
    pub open spec fn color_at(&self, point: Vec3) -> Color {
        tinted(self.color, self.data.texel(self.local_point(point)))
    }

    fn to_local_space(&self, vec: Vec3) -> (r: Vec3)
        requires
            self.transform.invertible(),
        ensures
            r == self.local_point(vec),
    {
        let (x, y, z) = self.transform.to_local_exact(vec);
        Vec3 { x: fraction_of(x), y: fraction_of(y), z: fraction_of(z) }
    }

    /// Samples the texture at a point.
    pub fn sample(&self, point: Vec3) -> (r: Color)
        requires
            self.wf(),
        ensures
            r == self.color_at(point),
    {
        tint(self.color, self.data.sample(self.to_local_space(point)))
    }
}

} // verus!
