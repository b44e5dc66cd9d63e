use lingpdf::geometry::{div_i64, scale_to_screen_i64};
use lingpdf::layout::{
    fit_page_zoom, fit_width_centered_zoom, fit_width_zoom, window_to_image_coords,
};

#[test]
fn truncating_division_rounds_towards_zero() {
    assert_eq!(div_i64(7, 2), 3);
    assert_eq!(div_i64(-7, 2), -3);
    assert_eq!(div_i64(6, 3), 2);
    assert_eq!(div_i64(0, 5), 0);
}

#[test]
fn scaling_document_space_to_screen_space() {
    // 10 points on a 600-point page rendered 300 pixels wide: 5 pixels.
    assert_eq!(scale_to_screen_i64(10_000, 300, 600_000), 5_000);
    // Negative coordinates scale symmetrically.
    assert_eq!(scale_to_screen_i64(-10_000, 300, 600_000), -5_000);
}

#[test]
fn fit_width_reaches_the_target_or_a_clamp() {
    // A 400-point page fits 800 pixels at zoom 2.00.
    assert_eq!(fit_width_zoom(400_000), 200);
    // A very narrow page clamps at the maximum.
    assert_eq!(fit_width_zoom(10_000), 300);
    // A very wide page clamps at the minimum.
    assert_eq!(fit_width_zoom(900_000_000), 50);
}

#[test]
fn fit_page_takes_the_tighter_dimension() {
    // 600x800 points fit the 600x800-pixel target exactly at zoom 1.00.
    assert_eq!(fit_page_zoom(600_000, 800_000), 100);
    // A wide page is limited by its width.
    assert_eq!(fit_page_zoom(1_200_000, 800_000), 50);
}

#[test]
fn centered_fit_subtracts_the_chrome() {
    // Viewport 1000x800 px, no sidebar: 960 px of width and 708 px of
    // height remain for a 600x800-point page; the height wins (zoom 0.88).
    assert_eq!(
        fit_width_centered_zoom(1_000_000, 800_000, false, 600_000, 800_000),
        88
    );
    // With the sidebar the width shrinks to 760 px, but the height still
    // wins.
    assert_eq!(
        fit_width_centered_zoom(1_000_000, 800_000, true, 600_000, 800_000),
        88
    );
}

#[test]
fn window_coordinates_become_image_relative() {
    // Viewport 1200x800 px with the sidebar: the content container starts
    // at 200 px and is a third of the remaining 1000 px wide; a 300x400-px
    // image is centered inside it.
    let (x, y) = window_to_image_coords(549_999, 206_000, 1_200_000, 800_000, 300, 400, true);
    assert_eq!(x, 0);
    assert_eq!(y, 0);
    let (x, y) = window_to_image_coords(560_000, 210_000, 1_200_000, 800_000, 300, 400, true);
    assert_eq!(x, 10_001);
    assert_eq!(y, 4_000);
}
