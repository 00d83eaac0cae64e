//! Overlay visual treatment of a fetched tile image: darken the RGB
//! channels by 20%, then alpha-blend a thin dark border, one to five
//! pixels wide (3% of the tile width, clamped).
//!
//! The pixel arithmetic is integer and verified; the conversions between
//! `image::DynamicImage` and its raw RGBA bytes are trusted wrappers
//! around the image crate.

use vstd::prelude::*;

verus! {

/// The blended border color's red, green and blue value.
pub const BORDER_COLOR_CHANNEL: u32 = 40;
/// The blended border color's alpha, out of 255.
pub const BORDER_COLOR_ALPHA: u32 = 150;

/// A color channel darkened by 20%.
pub open spec fn spec_darkened(b: u8) -> u8 {
    ((b as int) * 4 / 5) as u8
}

/// A color channel alpha-blended with the border color:
/// `((255 - 150) * b + 150 * 40) / 255`.
pub open spec fn spec_border_blended(b: u8) -> u8 {
    (((b as int) * 105 + 6000) / 255) as u8
}

/// Border width: 3% of the tile width, clamped to one through five pixels.
pub open spec fn spec_border_width(w: int) -> int {
    let bw = w * 3 / 100;
    if bw < 1 {
        1
    } else if bw > 5 {
        5
    } else {
        bw
    }
}

/// Whether pixel `(x, y)` lies on the border frame.
pub open spec fn spec_on_border(w: int, h: int, x: int, y: int) -> bool {
    let bw = spec_border_width(w);
    x < bw || x + bw >= w || y < bw || y + bw >= h
}

/// Byte `idx` of the decorated image: alpha bytes pass through; color
/// bytes are darkened, and border pixels additionally blended.
pub open spec fn spec_decorated_at(p: Seq<u8>, w: int, h: int, idx: int) -> u8 {
    let pi = idx / 4;
    let ch = idx % 4;
    let x = pi % w;
    let y = pi / w;
    if ch == 3 {
        p[idx]
    } else {
        let d = spec_darkened(p[idx]);
        if spec_on_border(w, h, x, y) {
            spec_border_blended(d)
        } else {
            d
        }
    }
}

/// The whole decorated RGBA buffer.
pub open spec fn spec_decorated(p: Seq<u8>, w: int, h: int) -> Seq<u8> {
    Seq::new(p.len(), |i: int| spec_decorated_at(p, w, h, i))
}

/// Apply the overlay treatment to a raw RGBA buffer, row-major, four bytes
/// per pixel.
pub fn decorate_tile_pixels(pixels: &Vec<u8>, width: u32, height: u32) -> (r: Vec<u8>)
    requires
        pixels@.len() == 4 * width * height,
        1 <= width <= 1_000_000,
        1 <= height <= 1_000_000,
    ensures
        r@.len() == pixels@.len(),
        r@ == spec_decorated(pixels@, width as int, height as int),
{
    let bw0: u32 = width * 3 / 100;
    let bw: u32 = if bw0 < 1 {
        1
    } else if bw0 > 5 {
        5
    } else {
        bw0
    };
    let w: usize = width as usize;
    let h: usize = height as usize;
    let bwu: usize = bw as usize;
    let mut r: Vec<u8> = Vec::new();
    let mut idx: usize = 0;
    while idx < pixels.len()
        invariant
            pixels@.len() == 4 * width * height,
            1 <= width <= 1_000_000,
            1 <= height <= 1_000_000,
            w == width as usize,
            h == height as usize,
            bwu as int == spec_border_width(width as int),
            0 <= idx <= pixels@.len(),
            r@.len() == idx,
            forall|k: int|
                0 <= k < idx ==> r@[k] == spec_decorated_at(
                    pixels@,
                    width as int,
                    height as int,
                    k,
                ),
        decreases pixels@.len() - idx,
    {
        let pi: usize = idx / 4;
        let ch: usize = idx % 4;
        let x: usize = pi % w;
        let y: usize = pi / w;
        let b: u8 = pixels[idx];
        let out: u8 = if ch == 3 {
            b
        } else {
            let d: u8 = ((b as u32) * 4 / 5) as u8;
            if x < bwu || x + bwu >= w || y < bwu || y + bwu >= h {
                (((d as u32) * 105 + 6000) / 255) as u8
            } else {
                d
            }
        };
        r.push(out);
        idx = idx + 1;
    }
    proof {
        assert(r@ =~= spec_decorated(pixels@, width as int, height as int));
    }
    r
}

#[verifier::external_type_specification]
#[verifier::external_body]
pub struct ExDynamicImage(image::DynamicImage);

/// The raw RGBA container of an image, as `DynamicImage::to_rgba8` followed
/// by `ImageBuffer::into_raw` returns it: a function of the image alone.
pub uninterp spec fn image_rgba(img: image::DynamicImage) -> Seq<u8>;

/// The image's width in pixels, as `ImageBuffer::width` returns it.
pub uninterp spec fn image_width(img: image::DynamicImage) -> u32;

/// The image's height in pixels, as `ImageBuffer::height` returns it.
pub uninterp spec fn image_height(img: image::DynamicImage) -> u32;

/// Relies on image::DynamicImage::to_rgba8 and ImageBuffer::width, height
/// and into_raw: the conversion depends on the image alone, and the raw
/// container of an RGBA image holds at least four bytes per pixel,
/// row-major.
#[verifier::external_body]
fn rgba_bytes(img: &image::DynamicImage) -> (r: (Vec<u8>, u32, u32))
    ensures
        r.0@ == image_rgba(*img),
        r.1 == image_width(*img),
        r.2 == image_height(*img),
        r.0@.len() >= 4 * r.1 * r.2,
{
    let buf = img.to_rgba8();
    let w = buf.width();
    let h = buf.height();
    (buf.into_raw(), w, h)
}

/// Relies on image::RgbaImage::from_raw and DynamicImage::ImageRgba8: a
/// container holding at least four bytes per pixel yields an RGBA image,
/// and one of exactly four bytes per pixel yields an image that converts
/// back to the same bytes and dimensions.
#[verifier::external_body]
fn image_from_rgba(bytes: Vec<u8>, width: u32, height: u32) -> (r: image::DynamicImage)
    requires
        bytes@.len() >= 4 * width * height,
    ensures
        bytes@.len() == 4 * width * height ==> image_rgba(r) == bytes@ && image_width(r) == width
            && image_height(r) == height,
{
    match image::RgbaImage::from_raw(width, height, bytes) {
        Some(buf) => image::DynamicImage::ImageRgba8(buf),
        None => image::DynamicImage::new_rgba8(width, height),
    }
}

/// Apply the overlay visual treatment to a fetched tile image: the pixel
/// arithmetic of [`decorate_tile_pixels`] runs on the image's raw RGBA
/// bytes. An image of degenerate or outlandish size, or one whose container
/// carries spare bytes, passes through unchanged.
pub fn decorate_overlay_image(img: &image::DynamicImage) -> (r: image::DynamicImage)
    ensures
        (1 <= image_width(*img) <= 1_000_000 && 1 <= image_height(*img) <= 1_000_000
            && image_rgba(*img).len() == 4 * image_width(*img) * image_height(*img))
            ==> image_rgba(r) == spec_decorated(
            image_rgba(*img),
            image_width(*img) as int,
            image_height(*img) as int,
        ),
{
    let (bytes, w, h) = rgba_bytes(img);
    if 1 <= w && w <= 1_000_000 && 1 <= h && h <= 1_000_000 && bytes.len() as u64 == 4u64 * (
    w as u64) * (h as u64) {
        let out = decorate_tile_pixels(&bytes, w, h);
        image_from_rgba(out, w, h)
    } else {
        image_from_rgba(bytes, w, h)
    }
}

} // verus!
