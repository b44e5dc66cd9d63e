//! Pixel-buffer preparation between the document engine and the display:
//! channel reordering of the rasterized page and rotation of the image.
//!
//! A page image is a `width * height` RGBA buffer, four bytes per pixel,
//! rows top to bottom; pixel `(x, y)` occupies bytes
//! `4 * (y * width + x) ..+ 4`.  Rotation is delegated to the `image`
//! crate; the wrappers below state the exact pixel permutation its source
//! performs.

use vstd::prelude::*;

verus! {

/// The engine renders at twice the display resolution; display dimensions
/// are the rendered ones divided by this factor.
pub const DPI_SCALE: u32 = 2;

/// Byte `k` of pixel `(x, y)` in a `w`-wide RGBA image.
pub open spec fn px(w: int, x: int, y: int, k: int) -> int {
    4 * (y * w + x) + k
}

/// `dst` is `src` (a w×h RGBA image) rotated a quarter turn clockwise:
/// pixel `(x, y)` moved to `(h-1-y, x)` of the h×w result.
pub open spec fn rot90_pixels(src: Seq<u8>, dst: Seq<u8>, w: int, h: int) -> bool {
    forall|x: int, y: int, k: int|
        0 <= x < w && 0 <= y < h && 0 <= k < 4 ==> dst[px(h, h - 1 - y, x, k)] == src[
            #[trigger] px(w, x, y, k)]
}

/// `dst` is `src` rotated a half turn: pixel `(x, y)` moved to
/// `(w-1-x, h-1-y)`.
pub open spec fn rot180_pixels(src: Seq<u8>, dst: Seq<u8>, w: int, h: int) -> bool {
    forall|x: int, y: int, k: int|
        0 <= x < w && 0 <= y < h && 0 <= k < 4 ==> dst[px(w, w - 1 - x, h - 1 - y, k)] == src[
            #[trigger] px(w, x, y, k)]
}

/// `dst` is `src` rotated a quarter turn counter-clockwise: pixel `(x, y)`
/// moved to `(y, w-1-x)` of the h×w result.
pub open spec fn rot270_pixels(src: Seq<u8>, dst: Seq<u8>, w: int, h: int) -> bool {
    forall|x: int, y: int, k: int|
        0 <= x < w && 0 <= y < h && 0 <= k < 4 ==> dst[px(h, y, w - 1 - x, k)] == src[
            #[trigger] px(w, x, y, k)]
}

/// The byte at `i` of the BGRA buffer reordered to RGBA: bytes 0 and 2 of
/// each four-byte pixel swap, the rest stay.
pub open spec fn swizzled_at(s: Seq<u8>, i: int) -> u8 {
    if i % 4 == 0 {
        s[i + 2]
    } else if i % 4 == 2 {
        s[i - 2]
    } else {
        s[i]
    }
}

/// A BGRA buffer as RGBA: whole pixels reordered, a trailing fragment of
/// fewer than four bytes dropped.
pub open spec fn bgra_to_rgba_spec(s: Seq<u8>) -> Seq<u8> {
    Seq::new((s.len() / 4) * 4, |i: int| swizzled_at(s, i))
}

/// Reorders a BGRA pixel buffer to RGBA, exactly as [`bgra_to_rgba_spec`]
/// describes.
pub fn bgra_to_rgba(data: &Vec<u8>) -> (r: Vec<u8>)
    ensures
        r@ == bgra_to_rgba_spec(data@),
{
    let mut out: Vec<u8> = Vec::new();
    let mut i: usize = 0;
    let whole = (data.len() / 4) * 4;
    proof {
        assert(whole as int == (data@.len() / 4) * 4);
    }
    while i < whole
        invariant
            i <= whole,
            i % 4 == 0,
            whole as int == (data@.len() / 4) * 4,
            whole <= data@.len(),
            out@.len() == i,
            forall|j: int| 0 <= j < i ==> out@[j] == swizzled_at(data@, j),
        decreases whole - i,
    {
        let b = data[i];
        let g = data[i + 1];
        let rr = data[i + 2];
        let a = data[i + 3];
        out.push(rr);
        out.push(g);
        out.push(b);
        out.push(a);
        proof {
            assert((i as int) % 4 == 0);
            assert((i as int + 1) % 4 == 1);
            assert((i as int + 2) % 4 == 2);
            assert((i as int + 3) % 4 == 3);
        }
        i += 4;
    }
    proof {
        assert(out@ =~= bgra_to_rgba_spec(data@));
    }
    out
}

/// Relies on `image::imageops::rotate90`: the result is the w×h RGBA image
/// rotated a quarter turn clockwise — its source writes pixel `(x, y)` to
/// `(h-1-y, x)` of the h×w output.
#[verifier::external_body]
fn rotate90_rgba(data: Vec<u8>, w: u32, h: u32) -> (r: Vec<u8>)
    requires
        data@.len() == 4 * w * h,
    ensures
        r@.len() == 4 * w * h,
        rot90_pixels(data@, r@, w as int, h as int),
{
    match image::RgbaImage::from_raw(w, h, data) {
        Some(img) => image::imageops::rotate90(&img).into_raw(),
        None => Vec::new(),
    }
}

/// Relies on `image::imageops::rotate180`: the result is the w×h RGBA image
/// rotated a half turn — its source writes pixel `(x, y)` to
/// `(w-1-x, h-1-y)` of the w×h output.
#[verifier::external_body]
fn rotate180_rgba(data: Vec<u8>, w: u32, h: u32) -> (r: Vec<u8>)
    requires
        data@.len() == 4 * w * h,
    ensures
        r@.len() == 4 * w * h,
        rot180_pixels(data@, r@, w as int, h as int),
{
    match image::RgbaImage::from_raw(w, h, data) {
        Some(img) => image::imageops::rotate180(&img).into_raw(),
        None => Vec::new(),
    }
}

/// Relies on `image::imageops::rotate270`: the result is the w×h RGBA image
/// rotated a quarter turn counter-clockwise — its source writes pixel
/// `(x, y)` to `(y, w-1-x)` of the h×w output.
#[verifier::external_body]
fn rotate270_rgba(data: Vec<u8>, w: u32, h: u32) -> (r: Vec<u8>)
    requires
        data@.len() == 4 * w * h,
    ensures
        r@.len() == 4 * w * h,
        rot270_pixels(data@, r@, w as int, h as int),
{
    match image::RgbaImage::from_raw(w, h, data) {
        Some(img) => image::imageops::rotate270(&img).into_raw(),
        None => Vec::new(),
    }
}

/// A rotated page image ready for display: the pixel buffer, its
/// dimensions, and the display dimensions (the rendered ones over
/// [`DPI_SCALE`]).
pub struct PreparedImage {
    pub pixels: Vec<u8>,
    pub width: u32,
    pub height: u32,
    pub display_width: u32,
    pub display_height: u32,
}

/// Applies the tab's rotation to a freshly rendered RGBA page image and
/// derives the display dimensions.  Returns nothing when the buffer does
/// not hold exactly `width * height` RGBA pixels.  A rotation that is not
/// a multiple of a quarter turn leaves the image unchanged.
pub fn prepare_page_image(data: Vec<u8>, width: u32, height: u32, rotation: u32) -> (r: Option<
    PreparedImage,
>)
    ensures
        match r {
            None => data@.len() != 4 * width * height,
            Some(img) => {
                &&& data@.len() == 4 * width * height
                &&& img.pixels@.len() == 4 * width * height
                &&& (rotation == 90 || rotation == 270) ==> img.width == height && img.height
                    == width
                &&& (rotation != 90 && rotation != 270) ==> img.width == width && img.height
                    == height
                &&& img.display_width == img.width / DPI_SCALE
                &&& img.display_height == img.height / DPI_SCALE
                &&& rotation == 90 ==> rot90_pixels(
                    data@,
                    img.pixels@,
                    width as int,
                    height as int,
                )
                &&& rotation == 180 ==> rot180_pixels(
                    data@,
                    img.pixels@,
                    width as int,
                    height as int,
                )
                &&& rotation == 270 ==> rot270_pixels(
                    data@,
                    img.pixels@,
                    width as int,
                    height as int,
                )
                &&& (rotation != 90 && rotation != 180 && rotation != 270) ==> img.pixels@ == data@
            },
        },
{
    proof {
        assert((width as int) * (height as int) < 0x10000000000000000int) by (nonlinear_arith)
            requires
                0 <= width as int <= 0xffffffff,
                0 <= height as int <= 0xffffffff,
        ;
    }
    let pixel_count: u64 = (width as u64) * (height as u64);
    proof {
        assert(pixel_count as int == (width as int) * (height as int));
        assert(4 * width * height == 4 * ((width as int) * (height as int))) by (nonlinear_arith);
    }
    if data.len() % 4 != 0 || (data.len() / 4) as u64 != pixel_count {
        proof {
            let wh = (width as int) * (height as int);
            let len = data@.len() as int;
            assert(len % 4 != 0 || len / 4 != wh);
            if len == 4 * wh {
                vstd::arithmetic::div_mod::lemma_mod_multiples_basic(wh, 4);
                vstd::arithmetic::div_mod::lemma_div_multiples_vanish(wh, 4);
                assert(false);
            }
            assert(data@.len() != 4 * width * height);
        }
        return None;
    }
    proof {
        let wh = (width as int) * (height as int);
        let len = data@.len() as int;
        vstd::arithmetic::div_mod::lemma_fundamental_div_mod(len, 4);
        assert(data@.len() == 4 * width * height);
    }
    let (pixels, new_width, new_height) = if rotation == 90 {
        (rotate90_rgba(data, width, height), height, width)
    } else if rotation == 180 {
        (rotate180_rgba(data, width, height), width, height)
    } else if rotation == 270 {
        (rotate270_rgba(data, width, height), height, width)
    } else {
        (data, width, height)
    };
    Some(
        PreparedImage {
            pixels,
            width: new_width,
            height: new_height,
            display_width: new_width / DPI_SCALE,
            display_height: new_height / DPI_SCALE,
        },
    )
}

} // verus!
