//! Presentation-geometry arithmetic: fitting a page into the viewport and
//! converting window coordinates to image-relative coordinates.
//!
//! Lengths on screen are in milli-pixels, page sizes in milli-points, zoom
//! factors in hundredths, as everywhere in this crate.  The layout mirrored
//! here places a toolbar above and a status bar below the content, an
//! optional sidebar on the left, and centers the page image in the middle
//! third of the remaining area.

use vstd::prelude::*;
use crate::geometry::{COORD_LIMIT, DIM_LIMIT, MILLI, div_i64, div_to_zero};
use crate::state::{MAX_ZOOM, MIN_ZOOM};

verus! {

/// Page width aimed for by fit-to-width, in pixels.
pub const FIT_WIDTH_TARGET: i64 = 800;

/// Page width aimed for by fit-to-page, in pixels.
pub const FIT_PAGE_TARGET_WIDTH: i64 = 600;

/// Page height aimed for by fit-to-page, in pixels.
pub const FIT_PAGE_TARGET_HEIGHT: i64 = 800;

/// The toolbar's height, in milli-pixels.
pub const TOOLBAR_HEIGHT: i64 = 32_000;

/// The status bar's height, in milli-pixels.
pub const STATUS_BAR_HEIGHT: i64 = 20_000;

/// The sidebar's width, in milli-pixels.
pub const SIDEBAR_WIDTH: i64 = 200_000;

/// Padding kept around a fitted page, in milli-pixels in total per axis.
pub const FIT_PADDING: i64 = 40_000;

/// A zoom factor forced into the accepted range.
pub open spec fn clamp_zoom(z: int) -> int {
    if z < MIN_ZOOM {
        MIN_ZOOM as int
    } else if z > MAX_ZOOM {
        MAX_ZOOM as int
    } else {
        z
    }
}

/// The zoom that renders a page of width `w` milli-points at
/// [`FIT_WIDTH_TARGET`] pixels, clamped.
pub open spec fn fit_width_zoom_spec(w: int) -> int
    recommends
        w > 0,
{
    clamp_zoom(div_to_zero(FIT_WIDTH_TARGET * 100 * MILLI, w))
}

/// The zoom that fits a page of `w` by `h` milli-points inside
/// [`FIT_PAGE_TARGET_WIDTH`] by [`FIT_PAGE_TARGET_HEIGHT`] pixels, clamped.
pub open spec fn fit_page_zoom_spec(w: int, h: int) -> int
    recommends
        w > 0 && h > 0,
{
    let zw = div_to_zero(FIT_PAGE_TARGET_WIDTH * 100 * MILLI, w);
    let zh = div_to_zero(FIT_PAGE_TARGET_HEIGHT * 100 * MILLI, h);
    clamp_zoom(
        if zw <= zh {
            zw
        } else {
            zh
        },
    )
}

/// The zoom that fits a page of `w` by `h` milli-points inside the content
/// area of a `vw` by `vh` milli-pixel viewport (toolbar, status bar, the
/// sidebar when shown, and [`FIT_PADDING`] per axis subtracted), clamped.
pub open spec fn fit_width_centered_zoom_spec(
    vw: int,
    vh: int,
    sidebar: bool,
    w: int,
    h: int,
) -> int
    recommends
        w > 0 && h > 0,
{
    let side = if sidebar {
        SIDEBAR_WIDTH as int
    } else {
        0
    };
    let target_w = vw - side - FIT_PADDING;
    let target_h = vh - TOOLBAR_HEIGHT - STATUS_BAR_HEIGHT - FIT_PADDING;
    let zw = div_to_zero(target_w * 100, w);
    let zh = div_to_zero(target_h * 100, h);
    clamp_zoom(
        if zw <= zh {
            zw
        } else {
            zh
        },
    )
}

/// Where a window point lands relative to the page image: the image sits in
/// the middle third of the content area (right of the sidebar, between the
/// bars), centered.
pub open spec fn window_to_image_spec(
    wx: int,
    wy: int,
    vw: int,
    vh: int,
    img_w: int,
    img_h: int,
    sidebar: bool,
) -> (int, int) {
    let side = if sidebar {
        SIDEBAR_WIDTH as int
    } else {
        0
    };
    let content_height = vh - TOOLBAR_HEIGHT - STATUS_BAR_HEIGHT;
    let container_width = div_to_zero(vw - side, 3);
    let offset_x = side + container_width;
    let img_off_x = div_to_zero(container_width - img_w * MILLI, 2);
    let img_off_y = div_to_zero(content_height - img_h * MILLI, 2);
    (wx - offset_x - img_off_x, wy - TOOLBAR_HEIGHT - img_off_y)
}

/// The zoom for fit-to-width, exactly as [`fit_width_zoom_spec`] describes.
pub fn fit_width_zoom(page_width: i64) -> (r: u32)
    requires
        0 < page_width <= COORD_LIMIT,
    ensures
        r == fit_width_zoom_spec(page_width as int),
        MIN_ZOOM <= r <= MAX_ZOOM,
{
    let q = div_i64(FIT_WIDTH_TARGET * 100 * MILLI, page_width);
    if q < MIN_ZOOM as i64 {
        MIN_ZOOM
    } else if q > MAX_ZOOM as i64 {
        MAX_ZOOM
    } else {
        q as u32
    }
}

/// The zoom for fit-to-page, exactly as [`fit_page_zoom_spec`] describes.
pub fn fit_page_zoom(page_width: i64, page_height: i64) -> (r: u32)
    requires
        0 < page_width <= COORD_LIMIT,
        0 < page_height <= COORD_LIMIT,
    ensures
        r == fit_page_zoom_spec(page_width as int, page_height as int),
        MIN_ZOOM <= r <= MAX_ZOOM,
{
    let zw = div_i64(FIT_PAGE_TARGET_WIDTH * 100 * MILLI, page_width);
    let zh = div_i64(FIT_PAGE_TARGET_HEIGHT * 100 * MILLI, page_height);
    let q = if zw <= zh {
        zw
    } else {
        zh
    };
    if q < MIN_ZOOM as i64 {
        MIN_ZOOM
    } else if q > MAX_ZOOM as i64 {
        MAX_ZOOM
    } else {
        q as u32
    }
}

/// The zoom for centered fit-to-width, exactly as
/// [`fit_width_centered_zoom_spec`] describes.
pub fn fit_width_centered_zoom(
    viewport_width: i64,
    viewport_height: i64,
    show_sidebar: bool,
    page_width: i64,
    page_height: i64,
) -> (r: u32)
    requires
        -COORD_LIMIT <= viewport_width <= COORD_LIMIT,
        -COORD_LIMIT <= viewport_height <= COORD_LIMIT,
        0 < page_width <= COORD_LIMIT,
        0 < page_height <= COORD_LIMIT,
    ensures
        r == fit_width_centered_zoom_spec(
            viewport_width as int,
            viewport_height as int,
            show_sidebar,
            page_width as int,
            page_height as int,
        ),
        MIN_ZOOM <= r <= MAX_ZOOM,
{
    let side: i64 = if show_sidebar {
        SIDEBAR_WIDTH
    } else {
        0
    };
    let target_w = viewport_width - side - FIT_PADDING;
    let target_h = viewport_height - TOOLBAR_HEIGHT - STATUS_BAR_HEIGHT - FIT_PADDING;
    let zw = div_i64(target_w * 100, page_width);
    let zh = div_i64(target_h * 100, page_height);
    let q = if zw <= zh {
        zw
    } else {
        zh
    };
    if q < MIN_ZOOM as i64 {
        MIN_ZOOM
    } else if q > MAX_ZOOM as i64 {
        MAX_ZOOM
    } else {
        q as u32
    }
}

/// Converts a window point to image-relative coordinates, exactly as
/// [`window_to_image_spec`] describes.
pub fn window_to_image_coords(
    window_x: i64,
    window_y: i64,
    viewport_width: i64,
    viewport_height: i64,
    image_width: u32,
    image_height: u32,
    show_sidebar: bool,
) -> (r: (i64, i64))
    requires
        -COORD_LIMIT <= window_x <= COORD_LIMIT,
        -COORD_LIMIT <= window_y <= COORD_LIMIT,
        -COORD_LIMIT <= viewport_width <= COORD_LIMIT,
        -COORD_LIMIT <= viewport_height <= COORD_LIMIT,
        image_width <= DIM_LIMIT,
        image_height <= DIM_LIMIT,
    ensures
        (r.0 as int, r.1 as int) == window_to_image_spec(
            window_x as int,
            window_y as int,
            viewport_width as int,
            viewport_height as int,
            image_width as int,
            image_height as int,
            show_sidebar,
        ),
{
    let side: i64 = if show_sidebar {
        SIDEBAR_WIDTH
    } else {
        0
    };
    let content_height = viewport_height - TOOLBAR_HEIGHT - STATUS_BAR_HEIGHT;
    let container_width = div_i64(viewport_width - side, 3);
    let offset_x = side + container_width;
    let img_off_x = div_i64(container_width - (image_width as i64) * MILLI, 2);
    let img_off_y = div_i64(content_height - (image_height as i64) * MILLI, 2);
    let rel_x = window_x - offset_x - img_off_x;
    let rel_y = window_y - TOOLBAR_HEIGHT - img_off_y;
    (rel_x, rel_y)
}

} // verus!
