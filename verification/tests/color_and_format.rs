use raytracer::color::{push_decimal, Color, Color24b, ToColor};
use raytracer::fixed::FP_ONE;
use raytracer::render::ppm_header;
use raytracer::vector3::Vector3f;

#[test]
fn color_new_clamps_channels() {
    let c = Color::new(-5, 70000, 32768);
    assert_eq!((c.vec.x, c.vec.y, c.vec.z), (0, FP_ONE, 32768));
    assert_eq!(Color::max_color().vec.x, FP_ONE);
    assert_eq!(Color::min_color().vec.x, 0);
}

#[test]
fn from_vec_does_not_clamp() {
    let c = Color::from_vec(Vector3f::new(-5, 70000, 1));
    assert_eq!((c.vec.x, c.vec.y, c.vec.z), (-5, 70000, 1));
    let via_trait = Vector3f::new(1, 2, 3).to_color();
    assert_eq!((via_trait.vec.x, via_trait.vec.y, via_trait.vec.z), (1, 2, 3));
}

#[test]
fn gamma_correction_takes_square_roots() {
    // 0.25 maps to 0.5 exactly; negative channels floor at zero.
    let mut c = Color::from_vec(Vector3f::new(16384, FP_ONE, -7));
    let out = c.gamma_two_correct();
    assert_eq!((out.vec.x, out.vec.y, out.vec.z), (32768, FP_ONE, 0));
    assert_eq!((c.vec.x, c.vec.y, c.vec.z), (32768, FP_ONE, 0));
}

#[test]
fn quantization_scales_by_256_and_clamps() {
    // Full intensity would be channel 256, clamped to 255; one half is
    // exactly 128.
    let c = Color::new(FP_ONE, 32768, 0);
    let q = c.to_24_bit();
    assert_eq!((q.r, q.g, q.b), (255, 128, 0));
}

#[test]
fn quantization_clamps_unclamped_channels() {
    let c = Color::from_vec(Vector3f::new(3 * FP_ONE, -FP_ONE, 255));
    let q = c.to_24_bit();
    // 255 raw is slightly under one 256th of full scale, so it floors to
    // channel 0.
    assert_eq!((q.r, q.g, q.b), (255, 0, 0));
}

#[test]
fn color24b_from_wide_channels() {
    let c = Color24b::new_from_i64(-3, 300, 128);
    assert_eq!((c.r, c.g, c.b), (0, 255, 128));
}

#[test]
fn decimal_rendering() {
    let mut buf: Vec<u8> = Vec::new();
    push_decimal(&mut buf, 0);
    buf.push(32);
    push_decimal(&mut buf, 7);
    buf.push(32);
    push_decimal(&mut buf, 42);
    buf.push(32);
    push_decimal(&mut buf, 360);
    assert_eq!(buf, b"0 7 42 360");
}

#[test]
fn pixel_write_renders_channels_and_newline() {
    let c = Color24b::new_from_i64(128, 64, 255);
    let mut buf: Vec<u8> = Vec::new();
    c.write(&mut buf);
    assert_eq!(buf, b"128 64 255\n");
}

#[test]
fn header_declares_format_and_dimensions() {
    let buf = ppm_header(360, 240);
    assert_eq!(buf, b"P3\n360 240\n255\n");
}
