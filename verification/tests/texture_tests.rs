use raytracer::sampling::halton;
use raytracer::texture::{tint, u8_array_as_color, unit_clamp, Texture, TextureData};
use raytracer::transform::{Matrix3, Transform};
use raytracer::vector::{Vec3, UNIT};

const U: i32 = UNIT;

fn v(x: i32, y: i32, z: i32) -> Vec3 {
    Vec3::new(x, y, z)
}

fn four_pixels() -> TextureData {
    // black and white in the first row, red and blue in the second
    TextureData::Image {
        pixels: vec![0, 0, 0, 255, 255, 255, 255, 0, 0, 0, 0, 255],
        width: 2,
        height: 2,
    }
}

#[test]
fn unit_clamp_keeps_the_part_behind_the_point() {
    assert_eq!(unit_clamp(v(0, U - 1, U)), v(0, U - 1, 0));
    assert_eq!(unit_clamp(v(5 * U + 7, 2 * U, 3)), v(7, 0, 3));
    assert_eq!(unit_clamp(v(-1, -U, -U - 1)), v(U - 1, 0, U - 1));
    assert_eq!(unit_clamp(v(i32::MIN, i32::MAX, -3 * U + 5)), v(0, U - 1, 5));
}

#[test]
fn bytes_become_intensities() {
    assert_eq!(u8_array_as_color(&[0, 255, 51]), v(0, U, 819));
    assert_eq!(u8_array_as_color(&[128, 1, 254, 9]), v(2056, 16, 4079));
}

#[test]
fn tint_multiplies_channels() {
    assert_eq!(tint(v(U, U / 2, 0), v(U / 2, U / 2, U)), v(U / 2, U / 4, 0));
    assert_eq!(tint(v(3 * U, -U, 1), v(U, U, 1)), v(3 * U, -U, 0));
    assert_eq!(tint(v(i32::MAX, i32::MIN, 0), v(i32::MAX, i32::MAX, 0)), v(i32::MAX, i32::MIN, 0));
}

#[test]
fn blank_texture_is_white() {
    assert_eq!(TextureData::Blank.sample(v(17, -9, 4)), v(U, U, U));
}

#[test]
fn checkerboard_alternates() {
    let one = v(1, 2, 3);
    let two = v(4, 5, 6);
    let board = TextureData::Checkerboard { color1: one, color2: two };
    assert_eq!(board.sample(v(U / 4, U / 4, 0)), one);
    assert_eq!(board.sample(v(3 * U / 4, 3 * U / 4, 0)), one);
    assert_eq!(board.sample(v(3 * U / 4, U / 4, 0)), two);
    assert_eq!(board.sample(v(U / 4, 3 * U / 4, 0)), two);
    // on the line between the fields
    assert_eq!(board.sample(v(U / 2, U / 4, 0)), two);
    // the board repeats
    assert_eq!(board.sample(v(U / 4 - 3 * U, U / 4 + 7 * U, 0)), one);
}

#[test]
fn bitmap_without_pixels_is_black() {
    let empty = TextureData::Image { pixels: vec![], width: 0, height: 0 };
    assert!(empty.is_well_formed());
    assert_eq!(empty.sample(v(5, 5, 5)), v(0, 0, 0));
}

#[test]
fn bitmap_is_exact_at_a_pixel() {
    let image = four_pixels();
    assert_eq!(image.sample(v(0, 0, 0)), v(0, 0, 0));
    assert_eq!(image.sample(v(U / 2, 0, 0)), v(U, U, U));
    assert_eq!(image.sample(v(0, U / 2, 0)), v(U, 0, 0));
    assert_eq!(image.sample(v(U / 2, U / 2, 0)), v(0, 0, U));
}

#[test]
fn bitmap_blends_between_pixels() {
    let image = four_pixels();
    // half way between all four
    assert_eq!(image.sample(v(U / 4, U / 4, 0)), v(U / 2, U / 4, U / 2));
    // a quarter of the way from black to white
    assert_eq!(image.sample(v(U / 8, 0, 0)), v(U / 4, U / 4, U / 4));
    // beyond the last column the first one comes again
    assert_eq!(image.sample(v(3 * U / 4, 0, 0)), v(U / 2, U / 2, U / 2));
}

#[test]
fn bitmap_needs_its_pixels() {
    assert!(four_pixels().is_well_formed());
    assert!(!TextureData::Image { pixels: vec![0; 11], width: 2, height: 2 }.is_well_formed());
    assert!(!TextureData::Image { pixels: vec![0; 12], width: 0, height: 2 }.is_well_formed());
    assert!(!TextureData::Image { pixels: vec![], width: usize::MAX, height: 3 }.is_well_formed());
}

#[test]
fn texture_is_tinted_and_placed() {
    let board = Texture {
        data: TextureData::Checkerboard { color1: v(U, U, U), color2: v(0, 0, 0) },
        color: v(U / 2, U, 2 * U),
        transform: Transform::default(),
    };
    assert!(board.is_well_formed());
    assert_eq!(board.sample(v(U / 4, U / 4, 0)), v(U / 2, U, 2 * U));
    assert_eq!(board.sample(v(U / 4, 3 * U / 4, 0)), v(0, 0, 0));
    // scaled to twice its size, the texture shows a quarter where it showed a half
    let wide = Texture {
        data: four_pixels(),
        color: v(U, U, U),
        transform: Transform {
            transform: Matrix3 { x: v(2 * U, 0, 0), y: v(0, 2 * U, 0), z: v(0, 0, 2 * U) },
            translate: v(0, 0, 0),
        },
    };
    assert_eq!(wide.sample(v(U, 0, 0)), v(U, U, U));
    // shifted by a half, it shows at zero what it showed at a half
    let shifted = Texture {
        data: four_pixels(),
        color: v(U, U, U),
        transform: Transform { transform: Matrix3::one(), translate: v(-U / 2, 0, 0) },
    };
    assert_eq!(shifted.sample(v(0, 0, 0)), v(U, U, U));
}

#[test]
fn texture_with_singular_transform_is_refused() {
    let flat = Texture {
        data: TextureData::Blank,
        color: v(U, U, U),
        transform: Transform {
            transform: Matrix3 { x: v(U, 0, 0), y: v(U, 0, 0), z: v(0, 0, U) },
            translate: v(0, 0, 0),
        },
    };
    assert!(!flat.is_well_formed());
}

#[test]
fn halton_mirrors_the_digits() {
    let exact = |i: i32, b: i32| {
        let r = halton(i, b);
        (r.num, r.den)
    };
    assert_eq!(exact(0, 2), (0, 1));
    assert_eq!(exact(-5, 2), (0, 1));
    assert_eq!(exact(1, 2), (1, 2));
    assert_eq!(exact(2, 2), (1, 4));
    assert_eq!(exact(3, 2), (3, 4));
    assert_eq!(exact(4, 2), (1, 8));
    assert_eq!(exact(6, 2), (3, 8));
    assert_eq!(exact(1, 3), (1, 3));
    assert_eq!(exact(5, 3), (7, 9));
    assert_eq!(exact(9, 10), (9, 10));
    assert_eq!(exact(123, 10), (321, 1000));
    assert_eq!(exact(i32::MAX, i32::MAX), (1, (i32::MAX as i64) * (i32::MAX as i64)));
}

#[test]
fn halton_stays_below_one() {
    for base in [2, 3, 5, 7] {
        for index in 0..200 {
            let r = halton(index, base);
            assert!(0 <= r.num && r.num < r.den);
        }
    }
}
