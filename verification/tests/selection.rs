use lingpdf::pdf::{PageText, TextChar};
use lingpdf::tabs::SelectionRegion;
use lingpdf::text_selection::calculate_text_selection;

fn ch(c: char, x: i64, y: i64, width: i64, height: i64) -> TextChar {
    TextChar { ch: c, x, y, width, height, font_size: height }
}

fn page(chars: Vec<TextChar>) -> PageText {
    PageText { text: String::new(), chars }
}

// An 800-point-tall, 600-point-wide page rendered at 300x400 pixels
// (2 points per pixel), with one line "AB" near the top and one line "CD"
// below it.  All coordinates in milli-units.
fn two_line_page() -> PageText {
    page(vec![
        ch('A', 10_000, 780_000, 10_000, 20_000),
        ch('B', 20_000, 780_000, 10_000, 20_000),
        ch('C', 10_000, 740_000, 10_000, 20_000),
        ch('D', 20_000, 740_000, 10_000, 20_000),
    ])
}

#[test]
fn two_lines_joined_by_one_newline() {
    let pt = two_line_page();
    let (text, regions) = calculate_text_selection(
        &pt, 600_000, 800_000, 300, 400, 0, 5_000, 50_000, 25_000,
    );
    assert_eq!(text, "AB\nCD");
    assert_eq!(regions.len(), 2);
    // First line: from the drag's start to the line's natural end.
    assert_eq!(
        regions[0],
        SelectionRegion { x: 5_000, y: 0, width: 10_000, height: 10_000 }
    );
    // Last line: from the line's natural start to the drag's end.
    assert_eq!(
        regions[1],
        SelectionRegion { x: 5_000, y: 20_000, width: 10_000, height: 10_000 }
    );
}

#[test]
fn drag_direction_is_irrelevant() {
    let pt = two_line_page();
    let forward = calculate_text_selection(
        &pt, 600_000, 800_000, 300, 400, 0, 5_000, 50_000, 25_000,
    );
    let backward = calculate_text_selection(
        &pt, 600_000, 800_000, 300, 400, 50_000, 25_000, 0, 5_000,
    );
    assert_eq!(forward.0, backward.0);
    assert_eq!(forward.1, backward.1);
    assert_eq!(forward.0, "AB\nCD");
}

#[test]
fn identical_queries_yield_identical_output() {
    let pt = two_line_page();
    let first = calculate_text_selection(
        &pt, 600_000, 800_000, 300, 400, 3_000, 4_000, 47_000, 26_000,
    );
    let second = calculate_text_selection(
        &pt, 600_000, 800_000, 300, 400, 3_000, 4_000, 47_000, 26_000,
    );
    assert_eq!(first.0, second.0);
    assert_eq!(first.1, second.1);
}

#[test]
fn zero_size_drag_away_from_text_selects_nothing() {
    let pt = two_line_page();
    let (text, regions) = calculate_text_selection(
        &pt, 600_000, 800_000, 300, 400, 100_000, 100_000, 100_000, 100_000,
    );
    assert_eq!(text, "");
    assert!(regions.is_empty());
}

#[test]
fn empty_page_selects_nothing() {
    let pt = page(Vec::new());
    let (text, regions) = calculate_text_selection(
        &pt, 600_000, 800_000, 300, 400, 0, 0, 200_000, 300_000,
    );
    assert_eq!(text, "");
    assert!(regions.is_empty());
}

// The single-line x-intersection rule at its boundary: "A" spans pixels
// 5..10, "B" pixels 10..15, both on one line at screen row 50.
#[test]
fn single_line_boundary_intersection() {
    let pt = page(vec![
        ch('A', 10_000, 700_000, 10_000, 100_000),
        ch('B', 20_000, 700_000, 10_000, 100_000),
    ]);
    // B's left edge (10 px) does not exceed the drag's right edge (20 px),
    // so both characters intersect the range.
    let (text, _) = calculate_text_selection(
        &pt, 600_000, 800_000, 300, 400, 0, 0, 20_000, 20_000,
    );
    assert_eq!(text, "AB");
    // With the drag ending at 8 px, B's left edge lies beyond it.
    let (text, _) = calculate_text_selection(
        &pt, 600_000, 800_000, 300, 400, 0, 0, 8_000, 20_000,
    );
    assert_eq!(text, "A");
}

#[test]
fn characters_arriving_out_of_order_are_sorted() {
    let pt = page(vec![
        ch('B', 20_000, 780_000, 10_000, 20_000),
        ch('A', 10_000, 780_000, 10_000, 20_000),
    ]);
    let (text, _) = calculate_text_selection(
        &pt, 600_000, 800_000, 300, 400, 0, 0, 100_000, 100_000,
    );
    assert_eq!(text, "AB");
}

// A layout artifact far beyond the page's right edge must neither appear in
// the text nor stretch the highlight.
#[test]
fn artifact_beyond_page_width_is_discarded() {
    let pt = page(vec![
        ch('A', 10_000, 780_000, 10_000, 20_000),
        ch('\u{fffd}', 900_000, 780_000, 10_000, 20_000),
    ]);
    let (text, regions) = calculate_text_selection(
        &pt, 600_000, 800_000, 300, 400, 0, 0, 300_000, 50_000,
    );
    assert_eq!(text, "A");
    assert_eq!(regions.len(), 1);
    assert_eq!(
        regions[0],
        SelectionRegion { x: 5_000, y: 0, width: 5_000, height: 10_000 }
    );
}

// An artifact wholly left of the page (scaled extent entirely below zero)
// must neither appear in the text nor affect a line's bounds.
#[test]
fn artifact_wholly_left_of_page_is_discarded() {
    let pt = page(vec![
        ch('\u{fffd}', -40_000, 780_000, 20_000, 20_000),
        ch('A', 10_000, 780_000, 10_000, 20_000),
    ]);
    let (text, regions) = calculate_text_selection(
        &pt, 600_000, 800_000, 300, 400, -100_000, 0, 300_000, 50_000,
    );
    assert_eq!(text, "A");
    assert_eq!(regions.len(), 1);
    assert_eq!(
        regions[0],
        SelectionRegion { x: 5_000, y: 0, width: 5_000, height: 10_000 }
    );
}

// The highlight's right edge is the survivors' largest right edge, not the
// last-by-x character's: a wide glyph nested over a narrow one must not
// shorten the rectangle.
#[test]
fn region_reaches_the_widest_survivor() {
    let pt = page(vec![
        ch('A', 0, 780_000, 200_000, 20_000),
        ch('B', 100_000, 780_000, 20_000, 20_000),
        ch('C', 10_000, 740_000, 10_000, 20_000),
    ]);
    let (text, regions) = calculate_text_selection(
        &pt, 600_000, 800_000, 300, 400, 0, 5_000, 150_000, 25_000,
    );
    assert_eq!(text, "AB\nC");
    assert_eq!(regions.len(), 2);
    // A spans pixels 0..100, B pixels 50..60: the first line's highlight
    // runs to 100 px even though B is the rightmost character.
    assert_eq!(
        regions[0],
        SelectionRegion { x: 0, y: 0, width: 100_000, height: 10_000 }
    );
    assert_eq!(
        regions[1],
        SelectionRegion { x: 5_000, y: 20_000, width: 5_000, height: 10_000 }
    );
}

// Clamping: a character crossing the page's left edge still yields a region
// starting at zero, and every region lies within the image.
#[test]
fn regions_are_clamped_to_the_image() {
    let pt = page(vec![
        ch('A', -10_000, 780_000, 30_000, 20_000),
        ch('B', 20_000, 780_000, 10_000, 20_000),
        ch('C', 10_000, 740_000, 580_000, 20_000),
    ]);
    let (_, regions) = calculate_text_selection(
        &pt, 600_000, 800_000, 300, 400, -50_000, 0, 400_000, 35_000,
    );
    assert!(!regions.is_empty());
    for r in &regions {
        assert!(r.width > 0);
        assert!(r.x >= 0);
        assert!(r.x + r.width <= 300 * 1000);
    }
    assert_eq!(regions[0].x, 0);
}

// Coordinates at the accepted magnitude limits must not overflow the
// fixed-point arithmetic.
#[test]
fn extreme_magnitudes_are_handled() {
    let limit: i64 = 1_000_000_000;
    let pt = page(vec![
        ch('A', limit, limit, limit, limit),
        ch('B', -limit, -limit, limit, limit),
    ]);
    let (text, regions) = calculate_text_selection(
        &pt, limit, limit, 100_000, 100_000, -limit, -limit, limit, limit,
    );
    for r in &regions {
        assert!(r.width > 0);
        assert!(r.x >= 0);
        assert!(r.x + r.width <= 100_000 * 1000);
    }
    // The off-page glyph at the far positive corner is an artifact; the one
    // far below the page never meets the drag's vertical range only if the
    // drag excludes it — here the drag covers everything, so whatever text
    // comes back, the call must simply not fault.
    let _ = text;
}

// A hit line whose characters all fail the horizontal filter produces
// neither text nor a degenerate region.
#[test]
fn line_with_no_surviving_characters_emits_nothing() {
    let pt = page(vec![ch('A', 10_000, 700_000, 10_000, 100_000)]);
    // Zero-size drag at x = 100 px, far right of A's span (5..10 px).
    let (text, regions) = calculate_text_selection(
        &pt, 600_000, 800_000, 300, 400, 100_000, 40_000, 100_000, 40_000,
    );
    assert_eq!(text, "");
    assert!(regions.is_empty());
}
