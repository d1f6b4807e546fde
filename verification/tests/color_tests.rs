use fraktal::Color;

#[test]
fn lerp_midpoint() {
    let a = Color::of(0, 0, 0, 255);
    let b = Color::of(255, 0, 255, 255);
    let mid = Color::lerp(&a, &b, 0, 2, 1);
    assert_eq!(mid, Color::of(127, 0, 127, 255));
}

#[test]
fn lerp_descending_channel() {
    let a = Color::of(200, 10, 0, 255);
    let b = Color::of(100, 40, 0, 255);
    // At 3 of 10 steps: 200 - 100*3/10 = 170, 10 + 30*3/10 = 19.
    let c = Color::lerp(&a, &b, 0, 10, 3);
    assert_eq!(c, Color::of(170, 19, 0, 255));
}

#[test]
fn lerp_endpoints() {
    let a = Color::of(12, 34, 56, 78);
    let b = Color::of(200, 100, 0, 255);
    assert_eq!(Color::lerp(&a, &b, 5, 9, 5), a);
    assert_eq!(Color::lerp(&a, &b, 5, 9, 9), b);
}

#[test]
fn average_rounds_down() {
    let a = Color::of(0, 1, 254, 255);
    let b = Color::of(1, 2, 255, 255);
    assert_eq!(a.average(&b), Color::of(0, 1, 254, 255));
}

#[test]
fn parse_hex_valid() {
    assert_eq!(Color::parse_hex("#ff8000"), Some(Color::of(255, 128, 0, 255)));
    assert_eq!(Color::parse_hex("#FF8000"), Some(Color::of(255, 128, 0, 255)));
    assert_eq!(Color::parse_hex("#000000"), Some(Color::of(0, 0, 0, 255)));
    assert_eq!(Color::parse_hex("#ffffff"), Some(Color::of(255, 255, 255, 255)));
}

#[test]
fn parse_hex_invalid() {
    assert_eq!(Color::parse_hex(""), None);
    assert_eq!(Color::parse_hex("#fff"), None);
    assert_eq!(Color::parse_hex("#gg0000"), None);
    assert_eq!(Color::parse_hex("123456"), None);
    // The leading character must be the hash; trailing text is ignored.
    assert_eq!(Color::parse_hex("x123456"), None);
    assert_eq!(Color::parse_hex("#123456zz"), Some(Color::of(0x12, 0x34, 0x56, 255)));
}

#[test]
fn as_hex_round_trip() {
    let c = Color::of(255, 128, 7, 255);
    assert_eq!(c.as_hex(), "#ff8007");
    assert_eq!(Color::parse_hex(&c.as_hex()), Some(c));
}
