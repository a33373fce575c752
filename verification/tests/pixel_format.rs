use tofi::pixel_format::{fill_rgba_premul, rgba_premul_to_argb8888};

#[test]
fn rgba_to_argb_swaps_red_and_blue() {
    let src = [1u8, 2, 3, 4, 10, 20, 30, 40];
    let mut dst = [0u8; 8];
    rgba_premul_to_argb8888(&src, &mut dst);
    assert_eq!(dst, [3, 2, 1, 4, 30, 20, 10, 40]);
}

#[test]
fn rgba_to_argb_leaves_partial_pixel() {
    let src = [1u8, 2, 3, 4, 5, 6];
    let mut dst = [9u8; 6];
    rgba_premul_to_argb8888(&src, &mut dst);
    assert_eq!(dst, [3, 2, 1, 4, 9, 9]);
}

#[test]
fn fill_premultiplies_by_alpha() {
    let mut buf = [0u8; 9];
    fill_rgba_premul(&mut buf, 255, 128, 0, 128);
    // 255 * 128 / 255 = 128; 128 * 128 / 255 = 64.25 → 64.
    assert_eq!(buf, [128, 64, 0, 128, 128, 64, 0, 128, 0]);
}

#[test]
fn fill_opaque_keeps_channels() {
    let mut buf = [0u8; 4];
    fill_rgba_premul(&mut buf, 10, 20, 30, 255);
    assert_eq!(buf, [10, 20, 30, 255]);
}

#[test]
fn blend_opaque_replaces_pixel() {
    let mut px = [10u8, 20, 30, 40, 7];
    tofi::pixel_format::blend_pixel(&mut px, 255, 0, 0, 255);
    assert_eq!(px, [255, 0, 0, 255, 7]);
}

#[test]
fn blend_transparent_keeps_pixel() {
    let mut px = [10u8, 20, 30, 40];
    tofi::pixel_format::blend_pixel(&mut px, 200, 100, 50, 0);
    assert_eq!(px, [10, 20, 30, 40]);
}

#[test]
fn blend_half_alpha() {
    let mut px = [10u8, 20, 30, 40];
    tofi::pixel_format::blend_pixel(&mut px, 200, 100, 50, 128);
    assert_eq!(px, [55, 35, 27, 148]);
}
