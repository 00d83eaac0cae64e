use tilecache::pixels::{decorate_overlay_image, decorate_tile_pixels};

#[test]
fn interior_pixels_are_darkened_twenty_percent() {
    // 8 x 8 image, every byte 200; border width is max(1, 8 * 3 / 100) == 1.
    let pixels = vec![200u8; 8 * 8 * 4];
    let out = decorate_tile_pixels(&pixels, 8, 8);
    assert_eq!(out.len(), pixels.len());
    // Pixel (4, 4) is interior: RGB 200 -> 160, alpha untouched.
    let idx = (4 * 8 + 4) * 4;
    assert_eq!(&out[idx..idx + 4], &[160, 160, 160, 200]);
}

#[test]
fn border_pixels_are_blended_after_darkening() {
    let pixels = vec![200u8; 8 * 8 * 4];
    let out = decorate_tile_pixels(&pixels, 8, 8);
    // Pixel (0, 0) is on the border: 200 -> 160 -> (160*105 + 6000)/255 == 89.
    assert_eq!(&out[0..4], &[89, 89, 89, 200]);
    // The last pixel (7, 7) is on the border too.
    let idx = (7 * 8 + 7) * 4;
    assert_eq!(&out[idx..idx + 4], &[89, 89, 89, 200]);
}

#[test]
fn border_width_scales_with_image_width() {
    // Width 200: border is 200 * 3 / 100 == 6, clamped to 5.
    let pixels = vec![100u8; 200 * 8 * 4];
    let out = decorate_tile_pixels(&pixels, 200, 8);
    // Pixel (4, 4): x < 5, so on the border: 100 -> 80 -> (80*105+6000)/255 == 56.
    let idx = (4 * 200 + 4) * 4;
    assert_eq!(&out[idx..idx + 4], &[56, 56, 56, 100]);
    // Pixel (5, 4): y + 5 >= 8 holds (4 + 5 >= 8), still border.
    let idx2 = (4 * 200 + 5) * 4;
    assert_eq!(&out[idx2..idx2 + 4], &[56, 56, 56, 100]);
}

#[test]
fn decorating_a_dynamic_image_changes_its_bytes() {
    // A 4 x 4 image, every byte 100. With border width 1, the four center
    // pixels are darkened only; the rim is darkened and blended.
    let raw = vec![100u8; 4 * 4 * 4];
    let buf = image::RgbaImage::from_raw(4, 4, raw).unwrap();
    let img = image::DynamicImage::ImageRgba8(buf);
    let out = decorate_overlay_image(&img);
    let bytes = out.to_rgba8().into_raw();
    assert_eq!(bytes.len(), 4 * 4 * 4);
    // Rim pixel (0, 0): 100 -> 80 -> (80*105 + 6000)/255 == 56.
    assert_eq!(&bytes[0..4], &[56, 56, 56, 100]);
    // Center pixel (1, 1): darkened only.
    let idx = (1 * 4 + 1) * 4;
    assert_eq!(&bytes[idx..idx + 4], &[80, 80, 80, 100]);
}
