use std::io::Cursor;

use outliner::grid::RgbGrid;
use outliner::luminance::{pixel_lumin, LUMIN_MAX};
use outliner::outline::{outline, Outliner};
use outliner::quadrant::Quadrant;
use outliner::shade::{gray_value, DIFF_SUM_MAX};
use outliner::timing::{current_time, elapsed_text};

fn pixel_of(g: &RgbGrid, x: u32, y: u32) -> [u8; 3] {
    g.get_pixel(x, y)
}

fn one_dark_pixel(width: u32, height: u32, x: u32, y: u32) -> RgbGrid {
    let mut g = RgbGrid::new(width, height, [255, 255, 255]);
    g.put_pixel(x, y, [0, 0, 0]);
    g
}

#[test]
fn lumin_of_black_and_white() {
    assert_eq!(pixel_lumin(&[0, 0, 0]), 0);
    assert_eq!(pixel_lumin(&[255, 255, 255]), LUMIN_MAX);
}

#[test]
fn lumin_weights_each_channel() {
    assert_eq!(pixel_lumin(&[255, 0, 0]), 2126 * 255);
    assert_eq!(pixel_lumin(&[0, 255, 0]), 7152 * 255);
    assert_eq!(pixel_lumin(&[0, 0, 255]), 722 * 255);
    assert_eq!(pixel_lumin(&[10, 20, 30]), 2126 * 10 + 7152 * 20 + 722 * 30);
}

#[test]
fn lumin_stays_in_range() {
    for v in [0u8, 1, 77, 128, 254, 255] {
        for w in [0u8, 9, 200, 255] {
            let l = pixel_lumin(&[v, w, v]);
            assert!(l <= LUMIN_MAX);
        }
    }
}

#[test]
fn lumin_grows_with_each_channel() {
    let base = [40u8, 90, 160];
    for c in 0..3 {
        let mut p = base;
        let before = pixel_lumin(&p);
        p[c] = 41 + base[c];
        assert!(pixel_lumin(&p) >= before);
    }
}

#[test]
fn gray_value_endpoints() {
    assert_eq!(gray_value(0), 255);
    assert_eq!(gray_value(DIFF_SUM_MAX), 0);
}

#[test]
fn gray_value_of_one_full_difference() {
    // mean difference 1/3: (1 - sqrt(1/3)) * 255 = 107.78...
    assert_eq!(gray_value(LUMIN_MAX), 107);
    // mean difference 1/12: (1 - sqrt(1/12)) * 255 = 181.38...
    assert_eq!(gray_value(LUMIN_MAX / 4), 181);
    // the smallest nonzero difference already darkens
    assert_eq!(gray_value(1), 254);
}

#[test]
fn grid_from_raw_checks_length() {
    assert!(RgbGrid::from_raw(2, 2, vec![0u8; 11]).is_none());
    assert!(RgbGrid::from_raw(2, 2, vec![0u8; 13]).is_none());
    assert!(RgbGrid::from_raw(2, 2, vec![0u8; 12]).is_some());
}

#[test]
fn grid_raw_round_trip() {
    let data: Vec<u8> = (0u8..18).collect();
    let g = RgbGrid::from_raw(3, 2, data.clone()).unwrap();
    assert_eq!(g.width(), 3);
    assert_eq!(g.height(), 2);
    assert_eq!(g.get_pixel(1, 0), [3, 4, 5]);
    assert_eq!(g.get_pixel(0, 1), [9, 10, 11]);
    assert_eq!(g.into_raw(), data);
}

#[test]
fn quadrant_offsets_point_inward() {
    assert_eq!(Quadrant::TopLeft.offsets(), [(0, 1), (1, 0), (1, 1)]);
    assert_eq!(Quadrant::BottomLeft.offsets(), [(0, -1), (1, 0), (1, -1)]);
    assert_eq!(Quadrant::TopRight.offsets(), [(0, 1), (-1, 0), (-1, 1)]);
    assert_eq!(Quadrant::BottomRight.offsets(), [(0, -1), (-1, 0), (-1, -1)]);
}

#[test]
fn uniform_image_is_white() {
    for (w, h) in [(4u32, 4u32), (5, 7), (9, 4), (16, 16)] {
        let out = outline(RgbGrid::new(w, h, [12, 200, 77]));
        for x in 0..w {
            for y in 0..h {
                assert_eq!(pixel_of(&out, x, y), [255, 255, 255]);
            }
        }
    }
}

#[test]
fn single_dark_pixel_marks_its_neighbours() {
    let out = outline(one_dark_pixel(4, 4, 2, 2));
    assert_eq!(out.width(), 4);
    assert_eq!(out.height(), 4);
    assert_eq!(pixel_of(&out, 2, 2), [0, 0, 0]);
    assert_eq!(pixel_of(&out, 3, 2), [107, 107, 107]);
    assert_eq!(pixel_of(&out, 2, 3), [107, 107, 107]);
    assert_eq!(pixel_of(&out, 3, 3), [107, 107, 107]);
    for (x, y) in [(0u32, 0u32), (1, 0), (0, 1), (1, 1), (0, 3), (3, 0), (2, 1), (1, 2)] {
        assert_eq!(pixel_of(&out, x, y), [255, 255, 255]);
    }
}

#[test]
fn quadrant_passes_match_outline() {
    let img = one_dark_pixel(6, 5, 1, 3);
    let expected = outline(one_dark_pixel(6, 5, 1, 3));
    let mut o = Outliner::new(img);
    o.draw_quadrant(Quadrant::TopLeft);
    o.draw_quadrant(Quadrant::BottomLeft);
    o.draw_quadrant(Quadrant::TopRight);
    o.draw_quadrant(Quadrant::BottomRight);
    assert_eq!(o.into_image().into_raw(), expected.into_raw());
}

#[test]
fn off_seam_pixel_ignores_pass_order() {
    // (0, 0) lies only in the top-left quadrant of a 6 by 6 image.
    let img = one_dark_pixel(6, 6, 1, 1);
    let mut forward = Outliner::new(one_dark_pixel(6, 6, 1, 1));
    forward.draw_all();
    let mut backward = Outliner::new(img);
    backward.draw_quadrant(Quadrant::BottomRight);
    backward.draw_quadrant(Quadrant::TopRight);
    backward.draw_quadrant(Quadrant::BottomLeft);
    backward.draw_quadrant(Quadrant::TopLeft);
    let a = forward.into_image();
    let b = backward.into_image();
    for (x, y) in [(0u32, 0u32), (1, 1), (0, 4), (4, 0), (4, 4), (5, 5)] {
        assert_eq!(pixel_of(&a, x, y), pixel_of(&b, x, y));
    }
    assert_eq!(pixel_of(&a, 0, 0), [107, 107, 107]);
}

#[test]
fn draw_outline_writes_one_pixel() {
    let mut o = Outliner::new(one_dark_pixel(4, 4, 1, 0));
    assert_eq!(o.get_lumin(1, 0), 0);
    assert_eq!(o.get_lumin(0, 0), LUMIN_MAX);
    o.draw_outline(0, 0, &[(0, 1), (1, 0), (1, 1)]);
    let g = o.into_image();
    assert_eq!(pixel_of(&g, 0, 0), [107, 107, 107]);
    assert_eq!(pixel_of(&g, 1, 0), [0, 0, 0]);
    assert_eq!(pixel_of(&g, 0, 1), [255, 255, 255]);
}

#[test]
fn outline_survives_png_round_trip() {
    let input = one_dark_pixel(5, 4, 2, 2);
    let out = outline(input);
    let (w, h) = (out.width(), out.height());
    let img = image::RgbImage::from_raw(w, h, out.into_raw()).unwrap();
    let mut bytes: Vec<u8> = Vec::new();
    img.write_to(&mut Cursor::new(&mut bytes), image::ImageFormat::Png).unwrap();
    let back = image::load_from_memory(&bytes).unwrap().to_rgb8();
    assert_eq!((back.width(), back.height()), (5, 4));
    for p in back.pixels() {
        assert_eq!(p.0[0], p.0[1]);
        assert_eq!(p.0[1], p.0[2]);
    }
    assert_eq!(back.get_pixel(2, 2).0, [0, 0, 0]);
}

#[test]
fn elapsed_text_parts() {
    assert_eq!(elapsed_text(12, 345_678_901), "12s 345ms 678\u{3bc}s 901ns");
    assert_eq!(elapsed_text(0, 0), "0s 0ms 0\u{3bc}s 0ns");
    assert_eq!(elapsed_text(u64::MAX, 999_999_999), "18446744073709551615s 999ms 999\u{3bc}s 999ns");
}

#[test]
fn current_time_has_four_parts() {
    let start = std::time::Instant::now();
    let t = current_time(&start);
    let parts: Vec<&str> = t.split(' ').collect();
    assert_eq!(parts.len(), 4);
    assert!(parts[0].ends_with('s'));
    assert!(parts[1].ends_with("ms"));
    assert!(parts[2].ends_with("\u{3bc}s"));
    assert!(parts[3].ends_with("ns"));
    let millis: u32 = parts[1].trim_end_matches("ms").parse().unwrap();
    assert!(millis < 1000);
}
