use image::{DynamicImage, GrayImage, Luma, Rgb, RgbImage, Rgba, RgbaImage};
use raytracer::color::Color;
use raytracer::scalar::Scalar;
use raytracer::texture::{wrap, Coloration, ImageTexture, DEFAULT_HEX};

fn s(x: f32) -> Scalar {
    Scalar::from_bits(x.to_bits())
}

fn float_wrap(coord: f32, bound: u32) -> u32 {
    let pixel = (coord * bound as f32).floor() as i32;
    (pixel as i64).rem_euclid(bound as i64) as u32
}

fn pattern_of(scale: f32, image: DynamicImage) -> ImageTexture {
    let rgba = image.to_rgba8();
    ImageTexture::new(s(scale), rgba.width(), rgba.height(), rgba.into_raw()).expect("four bytes to the pixel")
}

fn pattern_image() -> DynamicImage {
    DynamicImage::ImageRgb8(RgbImage::from_fn(4, 3, |x, y| {
        Rgb([(10 * x) as u8, (20 * y) as u8, (x + 4 * y) as u8])
    }))
}

#[test]
fn wrap_keeps_positions_inside_the_texture() {
    assert_eq!(wrap(s(0.0), 8), 0);
    assert_eq!(wrap(s(3.9), 8), 3);
    assert_eq!(wrap(s(7.0), 8), 7);
    assert_eq!(wrap(s(7.999), 8), 7);
    assert_eq!(wrap(s(8.0), 8), 0);
    assert_eq!(wrap(s(19.5), 8), 3);
}

#[test]
fn wrap_brings_negative_positions_back_from_the_far_end() {
    assert_eq!(wrap(s(-1.0), 8), 7);
    assert_eq!(wrap(s(-8.0), 8), 0);
    assert_eq!(wrap(s(-9.0), 8), 7);
    assert_eq!(wrap(s(-0.5), 8), 7);
    assert_eq!(wrap(s(-0.5), 10), 9);
    assert_eq!(wrap(s(-1e-30), 10), 9);
    assert_eq!(wrap(s(-1.5), 10), 8);
    assert_eq!(wrap(s(-10.5), 10), 9);
    assert_eq!(wrap(s(-17.2), 5), 2);
    assert_eq!(wrap(s(-0.0), 10), 0);
}

#[test]
fn every_pixel_is_one_wide_on_either_side_of_zero() {
    let mut counts = [0u32; 4];
    let mut x = -8.0f32;
    while x < 8.0 {
        counts[wrap(s(x), 4) as usize] += 1;
        x += 0.125;
    }
    assert_eq!(counts, [32, 32, 32, 32]);
}

#[test]
fn wrap_of_what_is_no_number_is_zero() {
    assert_eq!(wrap(s(f32::NAN), 8), 0);
}

#[test]
fn wrap_holds_huge_positions_to_the_integer_range_first() {
    assert_eq!(wrap(s(1e20), 10), (i32::MAX % 10) as u32);
    assert_eq!(wrap(s(-1e20), 10), (10 + i32::MIN % 10) as u32);
    assert_eq!(wrap(s(f32::INFINITY), 7), (i32::MAX % 7) as u32);
    assert_eq!(wrap(s(f32::NEG_INFINITY), 7), (i32::MIN as i64).rem_euclid(7) as u32);
    assert_eq!(wrap(s(3.0), i32::MAX as u32), 3);
    assert_eq!(wrap(s(-3.0), i32::MAX as u32), i32::MAX as u32 - 3);
    assert_eq!(wrap(s(5.0), 1), 0);
    assert_eq!(wrap(s(3.0), u32::MAX), 3);
    assert_eq!(wrap(s(-3.0), u32::MAX), u32::MAX - 3);
    assert_eq!(wrap(s(-1e20), 1 << 31), 0);
    assert_eq!(wrap(s(-1.0), (1 << 31) + 5), (1 << 31) + 4);
}

#[test]
fn wrap_agrees_with_the_floating_point_formula() {
    let coords = [
        0.0f32, 0.1, 0.5, 0.99, 1.0, 1.5, 2.25, -0.05, -0.1, -0.5, -1.0, -1.01, -7.3, 123.456,
        -123.456, 1e9, -1e9, 1e-9, -1e-9,
    ];
    for bound in [1u32, 2, 3, 7, 10, 16, 640, 4096] {
        for coord in coords {
            assert_eq!(
                wrap(s(coord * bound as f32), bound),
                float_wrap(coord, bound),
                "{coord} in {bound}"
            );
        }
    }
    assert_eq!(wrap(s(-0.05 * 10.0), 10), 9);
}

#[test]
fn image_texture_keeps_what_it_was_made_of() {
    let pattern = pattern_of(2.0, pattern_image());
    assert_eq!(pattern.width(), 4);
    assert_eq!(pattern.height(), 3);
    assert_eq!(pattern.scale, s(2.0));
    assert_eq!(pattern.pixels.len(), 4 * 4 * 3);
    assert_eq!(&pattern.pixels[0..8], &[0, 0, 0, 255, 10, 0, 1, 255]);
}

#[test]
fn image_texture_is_made_only_of_four_bytes_to_the_pixel() {
    assert!(ImageTexture::new(s(1.0), 2, 2, vec![0; 16]).is_some());
    assert!(ImageTexture::new(s(1.0), 2, 2, vec![0; 15]).is_none());
    assert!(ImageTexture::new(s(1.0), 2, 2, vec![0; 17]).is_none());
    assert!(ImageTexture::new(s(1.0), 2, 2, vec![]).is_none());
    assert!(ImageTexture::new(s(1.0), 0, 0, vec![]).is_some());
    assert!(ImageTexture::new(s(1.0), 0, 7, vec![]).is_some());
    assert!(ImageTexture::new(s(1.0), u32::MAX, u32::MAX, vec![0; 4]).is_none());
    assert!(ImageTexture::new(s(1.0), 1 << 31, 1 << 31, vec![]).is_none());
}

#[test]
fn image_texture_gives_the_pixel_under_the_position() {
    let pattern = pattern_of(1.0, pattern_image());
    assert_eq!(pattern.get(s(0.0), s(0.0)), Color::from_rgb([0, 0, 0]));
    assert_eq!(pattern.get(s(3.7), s(2.2)), Color::from_rgb([30, 40, 11]));
    assert_eq!(pattern.get(s(1.0), s(2.0)), Color::from_rgb([10, 40, 9]));
    assert_eq!(pattern.get(s(3.0), s(0.0)), Color::from_rgb([30, 0, 3]));
    assert_eq!(pattern.get(s(0.0), s(1.0)), Color::from_rgb([0, 20, 4]));
}

#[test]
fn image_texture_repeats_in_both_directions() {
    let pattern = pattern_of(1.0, pattern_image());
    assert_eq!(pattern.get(s(4.0), s(3.0)), Color::from_rgb([0, 0, 0]));
    assert_eq!(pattern.get(s(6.5), s(7.0)), Color::from_rgb([20, 20, 6]));
    assert_eq!(pattern.get(s(-1.0), s(-1.0)), Color::from_rgb([30, 40, 11]));
    assert_eq!(pattern.get(s(-5.0), s(-4.0)), Color::from_rgb([30, 40, 11]));
    assert_eq!(pattern.get(s(-0.5), s(-0.5)), Color::from_rgb([30, 40, 11]));
    assert_eq!(pattern.get(s(-0.5), s(0.5)), Color::from_rgb([30, 0, 3]));
}

#[test]
fn image_texture_drops_the_alpha_of_a_pixel() {
    let image = DynamicImage::ImageRgba8(RgbaImage::from_pixel(2, 2, Rgba([255, 0, 51, 7])));
    let pattern = pattern_of(1.0, image);
    assert_eq!(pattern.get(s(1.0), s(1.0)), Color::from_rgb([255, 0, 51]));
}

#[test]
fn image_texture_spreads_grey_over_the_three_channels() {
    let image = DynamicImage::ImageLuma8(GrayImage::from_pixel(1, 1, Luma([102])));
    let pattern = pattern_of(1.0, image);
    assert_eq!(pattern.get(s(0.0), s(0.0)), Color::from_rgb([102, 102, 102]));
}

#[test]
fn sample_answers_where_the_pattern_has_pixels() {
    let pattern = pattern_of(1.0, pattern_image());
    assert_eq!(pattern.sample(s(2.0), s(1.0)), Some(Color::from_rgb([20, 20, 6])));
}

#[test]
fn sample_answers_nothing_for_a_pattern_without_pixels() {
    let empty = pattern_of(1.0, DynamicImage::ImageRgb8(RgbImage::new(0, 0)));
    assert_eq!(empty.width(), 0);
    assert_eq!(empty.sample(s(2.0), s(1.0)), None);
    let flat = pattern_of(1.0, DynamicImage::ImageRgb8(RgbImage::new(0, 5)));
    assert_eq!(flat.sample(s(0.0), s(0.0)), None);
    let coloration = Coloration::Texture(pattern_of(1.0, DynamicImage::ImageRgb8(RgbImage::new(3, 0))));
    assert_eq!(coloration.sample(s(0.0), s(0.0)), None);
}

#[test]
fn sample_answers_nothing_for_a_pattern_with_the_wrong_number_of_bytes() {
    let short = ImageTexture { width: 2, height: 2, pixels: vec![9; 15], scale: s(1.0) };
    assert_eq!(short.sample(s(0.0), s(0.0)), None);
    let long = ImageTexture { width: 2, height: 2, pixels: vec![9; 20], scale: s(1.0) };
    assert_eq!(long.sample(s(1.0), s(1.0)), None);
}

#[test]
fn flat_coloration_is_one_colour_everywhere() {
    let coloration = Coloration::flat(0x33_66_99);
    let expected = Color::from_hex(0x33_66_99);
    assert_eq!(coloration.get(s(0.0), s(0.0)), expected);
    assert_eq!(coloration.get(s(-12.5), s(1e9)), expected);
    assert_eq!(coloration.sample(s(f32::NAN), s(3.0)), Some(expected));
}

#[test]
fn textured_coloration_reads_its_pattern() {
    let coloration = Coloration::Texture(pattern_of(1.0, pattern_image()));
    assert_eq!(coloration.get(s(2.0), s(1.0)), Color::from_rgb([20, 20, 6]));
    assert_eq!(coloration.sample(s(5.0), s(-1.0)), Some(Color::from_rgb([10, 40, 9])));
}

#[test]
fn a_pattern_can_be_copied() {
    let coloration = Coloration::Texture(pattern_of(1.0, pattern_image()));
    let copy = coloration.clone();
    assert_eq!(copy.get(s(2.0), s(1.0)), coloration.get(s(2.0), s(1.0)));
}

#[test]
fn default_coloration_is_a_dark_grey() {
    assert_eq!(DEFAULT_HEX, 0x0A0A0A);
    match Coloration::default() {
        Coloration::Color(c) => assert_eq!(c, Color::from_rgb([10, 10, 10])),
        Coloration::Texture(_) => panic!("a plain colour was expected"),
    }
}
