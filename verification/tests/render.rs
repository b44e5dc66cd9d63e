use lingpdf::render::{bgra_to_rgba, prepare_page_image};

#[test]
fn bgra_swizzle_swaps_red_and_blue() {
    let data = vec![1u8, 2, 3, 4, 5, 6, 7, 8];
    assert_eq!(bgra_to_rgba(&data), vec![3, 2, 1, 4, 7, 6, 5, 8]);
}

#[test]
fn bgra_swizzle_drops_a_trailing_fragment() {
    let data = vec![1u8, 2, 3, 4, 9];
    assert_eq!(bgra_to_rgba(&data), vec![3, 2, 1, 4]);
    assert_eq!(bgra_to_rgba(&Vec::new()), Vec::<u8>::new());
}

#[test]
fn rotate90_turns_a_column_into_a_row() {
    // A 1x2 image: pixel P0 above pixel P1.  A quarter turn clockwise puts
    // P1 left of P0 in a 2x1 image.
    let data = vec![10u8, 11, 12, 13, 20, 21, 22, 23];
    let img = prepare_page_image(data, 1, 2, 90).unwrap();
    assert_eq!(img.width, 2);
    assert_eq!(img.height, 1);
    assert_eq!(img.pixels, vec![20, 21, 22, 23, 10, 11, 12, 13]);
    assert_eq!(img.display_width, 1);
    assert_eq!(img.display_height, 0);
}

#[test]
fn rotate180_reverses_a_row() {
    let data = vec![10u8, 11, 12, 13, 20, 21, 22, 23];
    let img = prepare_page_image(data, 2, 1, 180).unwrap();
    assert_eq!(img.width, 2);
    assert_eq!(img.height, 1);
    assert_eq!(img.pixels, vec![20, 21, 22, 23, 10, 11, 12, 13]);
}

#[test]
fn rotate270_turns_a_row_into_a_column() {
    // A 2x1 image: P0 left of P1.  A quarter turn counter-clockwise puts
    // P1 above P0 in a 1x2 image.
    let data = vec![10u8, 11, 12, 13, 20, 21, 22, 23];
    let img = prepare_page_image(data, 2, 1, 270).unwrap();
    assert_eq!(img.width, 1);
    assert_eq!(img.height, 2);
    assert_eq!(img.pixels, vec![20, 21, 22, 23, 10, 11, 12, 13]);
}

#[test]
fn no_rotation_keeps_the_buffer_and_halves_display_dimensions() {
    let data = vec![9u8; 4 * 6 * 4];
    let img = prepare_page_image(data.clone(), 6, 4, 0).unwrap();
    assert_eq!(img.pixels, data);
    assert_eq!(img.width, 6);
    assert_eq!(img.height, 4);
    assert_eq!(img.display_width, 3);
    assert_eq!(img.display_height, 2);
}

#[test]
fn a_wrongly_sized_buffer_is_rejected() {
    assert!(prepare_page_image(vec![0u8; 7], 2, 1, 0).is_none());
}
