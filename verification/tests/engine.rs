use rasterlab::color::{rgb_to_hsv, hsv_to_rgb, Rgb, Hsv};
use rasterlab::raster::Image;
use rasterlab::point_ops::{apply_inversion, apply_brightness, apply_manual_threshold};
use rasterlab::histogram::build_histogram;
use rasterlab::otsu::{find_otsu_threshold, apply_otsu_threshold};
use rasterlab::contrast::apply_linear_contrast;

fn rgb(r: u8, g: u8, b: u8) -> Rgb {
    Rgb { r, g, b }
}

fn rgb_image(width: usize, height: usize, pixels: Vec<Rgb>) -> Image {
    Image::new_rgb8(width, height, pixels).unwrap()
}

fn luma_image(width: usize, height: usize, pixels: Vec<u8>) -> Image {
    Image::new_luma8(width, height, pixels).unwrap()
}

fn rgb_pixels_of(img: &Image) -> Vec<Rgb> {
    match img {
        Image::Rgb8 { pixels, .. } => pixels.clone(),
        _ => panic!("expected an RGB image"),
    }
}

fn luma_pixels_of(img: &Image) -> Vec<u8> {
    match img {
        Image::Luma8 { pixels, .. } => pixels.clone(),
        _ => panic!("expected a grayscale image"),
    }
}

#[test]
fn black_pixel_has_zero_hsv() {
    let h = rgb_to_hsv(rgb(0, 0, 0));
    assert_eq!(h.h_num, 0);
    assert_eq!(h.s_num, 0);
    assert_eq!(h.v_num, 0);
}

#[test]
fn gray_pixels_have_zero_hue_and_saturation() {
    for v in [1u8, 100, 128, 254, 255] {
        let h = rgb_to_hsv(rgb(v, v, v));
        assert_eq!(h.h_num, 0);
        assert_eq!(h.s_num, 0);
        assert_eq!(h.v_num, v as u32);
        assert_eq!(h.v_den, 255);
    }
}

#[test]
fn hsv_ranges_hold_on_samples() {
    for (r, g, b) in [(255u8, 0u8, 0u8), (13, 200, 56), (200, 13, 56), (56, 200, 13), (1, 2, 3)] {
        let h = rgb_to_hsv(rgb(r, g, b));
        assert!(h.h_num < 360 * h.h_den);
        assert!(h.s_num <= h.s_den);
        assert!(h.v_num <= h.v_den);
    }
}

#[test]
fn round_trip_is_exact_on_samples() {
    let samples = [
        (0u8, 0u8, 0u8),
        (255, 255, 255),
        (255, 0, 0),
        (0, 255, 0),
        (0, 0, 255),
        (12, 200, 56),
        (200, 56, 12),
        (56, 12, 200),
        (1, 2, 3),
        (254, 254, 1),
        (100, 100, 99),
        (17, 230, 230),
    ];
    for (r, g, b) in samples {
        let p = rgb(r, g, b);
        let back = hsv_to_rgb(rgb_to_hsv(p));
        assert_eq!(back, p);
    }
}

#[test]
fn round_trip_is_exact_exhaustively_on_a_slice() {
    for r in 0u16..=255 {
        for g in [0u8, 3, 127, 128, 200, 255] {
            let p = rgb(r as u8, g, 77);
            assert_eq!(hsv_to_rgb(rgb_to_hsv(p)), p);
        }
    }
}

#[test]
fn pure_green_hsv_converts_back() {
    let h = Hsv { h_num: 120, h_den: 1, s_num: 1, s_den: 1, v_num: 1, v_den: 1 };
    assert_eq!(hsv_to_rgb(h), rgb(0, 255, 0));
}

#[test]
fn inversion_inverts_each_channel() {
    let img = rgb_image(2, 1, vec![rgb(10, 20, 30), rgb(0, 255, 128)]);
    let inv = apply_inversion(&img);
    assert_eq!(rgb_pixels_of(&inv), vec![rgb(245, 235, 225), rgb(255, 0, 127)]);
}

#[test]
fn inversion_is_involutive() {
    let img = rgb_image(2, 2, vec![rgb(1, 2, 3), rgb(200, 100, 50), rgb(0, 0, 0), rgb(255, 255, 255)]);
    let twice = apply_inversion(&apply_inversion(&img));
    assert_eq!(rgb_pixels_of(&twice), rgb_pixels_of(&img));
}

#[test]
fn brightness_zero_is_identity() {
    let img = rgb_image(2, 1, vec![rgb(5, 250, 128), rgb(0, 255, 7)]);
    let out = apply_brightness(&img, 0);
    assert_eq!(rgb_pixels_of(&out), rgb_pixels_of(&img));
}

#[test]
fn brightness_saturates_at_both_ends() {
    let img = rgb_image(1, 1, vec![rgb(250, 250, 250)]);
    let out = apply_brightness(&img, 50);
    assert_eq!(rgb_pixels_of(&out), vec![rgb(255, 255, 255)]);
    let img2 = rgb_image(1, 1, vec![rgb(5, 5, 5)]);
    let out2 = apply_brightness(&img2, -50);
    assert_eq!(rgb_pixels_of(&out2), vec![rgb(0, 0, 0)]);
}

#[test]
fn manual_threshold_is_strict() {
    let above = apply_manual_threshold(&luma_image(1, 1, vec![128]), 127);
    assert_eq!(luma_pixels_of(&above), vec![255]);
    let at = apply_manual_threshold(&luma_image(1, 1, vec![127]), 127);
    assert_eq!(luma_pixels_of(&at), vec![0]);
}

#[test]
fn manual_threshold_uses_luma_of_color_input() {
    // pure red has luma floor(2126 * 255 / 10000) = 54
    let img = rgb_image(1, 1, vec![rgb(255, 0, 0)]);
    assert_eq!(luma_pixels_of(&apply_manual_threshold(&img, 53)), vec![255]);
    assert_eq!(luma_pixels_of(&apply_manual_threshold(&img, 54)), vec![0]);
}

#[test]
fn histogram_counts_intensities() {
    let hist = build_histogram(&vec![3u8, 3, 3, 200, 0]);
    assert_eq!(hist.len(), 256);
    assert_eq!(hist[3], 3);
    assert_eq!(hist[200], 1);
    assert_eq!(hist[0], 1);
    assert_eq!(hist[100], 0);
    let total: u64 = hist.iter().sum();
    assert_eq!(total, 5);
}

#[test]
fn otsu_splits_a_bimodal_histogram() {
    let gray = vec![50u8, 50, 200, 200];
    let hist = build_histogram(&gray);
    let t = find_otsu_threshold(&hist, 4);
    // every split between the modes has the same (maximal) variance, and
    // the first of them is kept
    assert_eq!(t, 50);
    // thresholding there reproduces the two-class partition exactly
    let out = apply_otsu_threshold(&luma_image(4, 1, gray));
    assert_eq!(luma_pixels_of(&out), vec![0, 0, 255, 255]);
}

#[test]
fn otsu_on_a_uniform_image_degenerates_to_zero() {
    let gray = vec![100u8, 100, 100, 100];
    let hist = build_histogram(&gray);
    assert_eq!(find_otsu_threshold(&hist, 4), 0);
    let out = apply_otsu_threshold(&luma_image(2, 2, gray));
    // everything is above threshold zero
    assert_eq!(luma_pixels_of(&out), vec![255, 255, 255, 255]);
}

#[test]
fn otsu_on_an_empty_image_returns_it_unchanged() {
    let img = luma_image(0, 0, vec![]);
    let out = apply_otsu_threshold(&img);
    assert_eq!(luma_pixels_of(&out), Vec::<u8>::new());
}

#[test]
fn contrast_stretch_spreads_grays_to_full_range() {
    let img = rgb_image(2, 1, vec![rgb(50, 50, 50), rgb(100, 100, 100)]);
    let out = apply_linear_contrast(&img);
    assert_eq!(rgb_pixels_of(&out), vec![rgb(0, 0, 0), rgb(255, 255, 255)]);
}

#[test]
fn contrast_stretch_leaves_a_flat_image_unchanged() {
    let img = rgb_image(2, 1, vec![rgb(80, 90, 100), rgb(80, 90, 100)]);
    let out = apply_linear_contrast(&img);
    assert_eq!(rgb_pixels_of(&out), rgb_pixels_of(&img));
}

#[test]
fn contrast_stretch_on_full_range_image_is_identity() {
    let img = rgb_image(3, 1, vec![rgb(0, 0, 0), rgb(130, 10, 55), rgb(255, 255, 255)]);
    let out = apply_linear_contrast(&img);
    assert_eq!(rgb_pixels_of(&out), rgb_pixels_of(&img));
}

#[test]
fn contrast_stretch_is_idempotent_on_examples() {
    let img = rgb_image(2, 2, vec![rgb(30, 60, 90), rgb(10, 10, 10), rgb(250, 1, 128), rgb(77, 77, 0)]);
    let once = apply_linear_contrast(&img);
    let twice = apply_linear_contrast(&once);
    assert_eq!(rgb_pixels_of(&twice), rgb_pixels_of(&once));
}

#[test]
fn dimension_check_rejects_short_pixel_buffers() {
    assert!(Image::new_rgb8(2, 2, vec![rgb(0, 0, 0)]).is_none());
    assert!(Image::new_luma8(1, 2, vec![1, 2]).is_some());
}
