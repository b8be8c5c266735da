use rasterizer::color::over_paint;
use rasterizer::hex::convert_hex_color_string;

#[test]
fn opaque_source_replaces_destination() {
    let a = (12, 34, 56, 255);
    assert_eq!(over_paint(a, (200, 100, 50, 25)), a);
    assert_eq!(over_paint(a, (0, 0, 0, 0)), a);
    assert_eq!(over_paint(a, (255, 255, 255, 255)), a);
}

#[test]
fn transparent_source_keeps_destination() {
    let b = (200, 100, 50, 255);
    assert_eq!(over_paint((99, 88, 77, 0), b), b);
    let semi = (10, 20, 30, 128);
    assert_eq!(over_paint((0, 0, 0, 0), semi), semi);
}

#[test]
fn both_transparent_is_defined() {
    assert_eq!(over_paint((255, 128, 7, 0), (1, 2, 3, 0)), (0, 0, 0, 0));
    assert_eq!(over_paint((0, 0, 0, 0), (0, 0, 0, 0)), (0, 0, 0, 0));
}

#[test]
fn half_alpha_over_opaque_exact() {
    // alpha 128 over opaque blue: ratio = 255*128 / (255*128 + 255*127)
    let r = over_paint((255, 0, 0, 128), (0, 0, 255, 255));
    assert_eq!(r, (128, 0, 127, 255));
}

#[test]
fn semi_over_semi_accumulates_alpha() {
    // N = 255*128 + 128*127 = 48896; alpha out = trunc(N / 255) = 191
    let r = over_paint((255, 255, 255, 128), (0, 0, 0, 128));
    assert_eq!(r.3, 191);
}

#[test]
fn hex_string_parses_channels() {
    assert_eq!(convert_hex_color_string(String::from("#ff8000")), (255, 128, 0, 255));
    assert_eq!(convert_hex_color_string(String::from("#000000")), (0, 0, 0, 255));
    assert_eq!(convert_hex_color_string(String::from("#AbCdEf")), (171, 205, 239, 255));
}

#[test]
fn hex_string_ignores_trailing_characters() {
    assert_eq!(convert_hex_color_string(String::from("#ff800012")), (255, 128, 0, 255));
    assert_eq!(convert_hex_color_string(String::from("#102030xyz")), (16, 32, 48, 255));
}
