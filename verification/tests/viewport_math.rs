//! Scroll ranges, rotation and picking a pixel of the page.

use svreader::document::PageSize;
use svreader::number::Real32;
use svreader::viewport::{Rotation, Viewport, ZoomMode};

fn single(x: f32) -> Real32 {
    Real32 { bits: x.to_bits() }
}

fn viewport(w: u32, h: u32, zoom: ZoomMode) -> Viewport {
    Viewport { screen_w: w, screen_h: h, zoom, ..Viewport::default() }
}

#[test]
fn narrow_page_gets_centered_offsets() {
    // FitPage on a 600x400 screen for a 200x200 page: scaled to (400,400),
    // which is narrower than the screen on x and equal on y.
    let v = viewport(600, 400, ZoomMode::FitPage);
    let scale = (600.0f32 / 200.0).min(400.0 / 200.0);
    let (pw, ph) = ((200.0 * scale).round() as u32, (200.0 * scale).round() as u32);
    assert!(pw <= 600);
    assert!(ph <= 400);
    let (xmin, xmax) = v.x_range(pw);
    let (ymin, ymax) = v.y_range(ph);
    // Both axes fit: the range collapses to a single centered offset.
    assert_eq!(xmin, xmax);
    assert_eq!(ymin, ymax);
    // And x is strictly inside (the page is narrower than the screen).
    assert!(xmin < 0, "narrow page should produce negative x offset");
    // ymin <= 0 (could be 0 if the page height exactly fills the screen).
    assert!(ymin <= 0);
}

#[test]
fn scroll_ranges_are_exact() {
    let v = viewport(600, 400, ZoomMode::FitWidth);
    assert_eq!(v.x_range(600), (0, 0));
    assert_eq!(v.x_range(401), (-99, -99));
    assert_eq!(v.y_range(1000), (0, 600));
    assert!(v.page_fits((600, 400)));
    assert!(!v.page_fits((601, 400)));
}

#[test]
fn offsets_are_clamped_into_their_ranges() {
    let mut v = viewport(600, 400, ZoomMode::FitWidth);
    v.x_off = 77;
    v.y_off = -5;
    v.clamp_offsets((600, 1000));
    assert_eq!((v.x_off, v.y_off), (0, 0));
    v.y_off = 9999;
    v.clamp_offsets((600, 1000));
    assert_eq!(v.y_off, 600);
}

#[test]
fn a_quarter_turn_swaps_the_sides_of_a_page() {
    let size = PageSize { width: single(300.0), height: single(900.0) };
    let turned = PageSize { width: single(900.0), height: single(300.0) };
    assert_eq!(Rotation::R0.apply_to_size(size), size);
    assert_eq!(Rotation::R90.apply_to_size(size), turned);
    assert_eq!(Rotation::R180.apply_to_size(size), size);
    assert_eq!(Rotation::R270.apply_to_size(size), turned);
}

#[test]
fn degrees_snap_to_quarter_turns() {
    assert_eq!(Rotation::from_degrees(90), Rotation::R90);
    assert_eq!(Rotation::from_degrees(-90), Rotation::R270);
    assert_eq!(Rotation::from_degrees(449), Rotation::R0);
    assert_eq!(Rotation::from_degrees(450), Rotation::R90);
    assert_eq!(Rotation::R270.cw(), Rotation::R0);
    assert_eq!(Rotation::R0.ccw(), Rotation::R270);
    assert_eq!(Rotation::R180.degrees(), 180);
}

#[test]
fn a_click_beside_the_page_hits_nothing() {
    let mut v = viewport(600, 400, ZoomMode::FitPage);
    v.clamp_offsets((400, 400));
    assert_eq!(v.x_off, -100);
    assert_eq!(v.screen_to_page_pixel((400, 400), 99, 10), None);
    assert_eq!(v.screen_to_page_pixel((400, 400), 100, 10), Some((0, 10)));
    assert_eq!(v.screen_to_page_pixel((400, 400), 499, 399), Some((399, 399)));
    assert_eq!(v.screen_to_page_pixel((400, 400), 500, 10), None);
}

#[test]
fn zooms_have_names() {
    assert_eq!(ZoomMode::FitWidth.label(""), "fit-w");
    assert_eq!(ZoomMode::FitHeight.label(""), "fit-h");
    assert_eq!(ZoomMode::FitPage.label(""), "fit-p");
    assert_eq!(ZoomMode::Custom(single(1.2)).label("120"), "120%");
}
