use worldmapper::color::Color;

fn c(r: u8, g: u8, b: u8, a: u8) -> Color {
    Color { r, g, b, a }
}

#[test]
fn over_opaque_foreground_wins() {
    let a = c(10, 20, 30, 255);
    let b = c(200, 100, 50, 77);
    assert_eq!(a.with_background(&b), a);
}

#[test]
fn over_transparent_foreground_yields_background() {
    let a = c(10, 20, 30, 0);
    let b = c(200, 100, 50, 77);
    assert_eq!(a.with_background(&b), b);
}

#[test]
fn over_semitransparent_blue_on_white() {
    let fg = c(0, 0, 255, 128);
    let bg = c(255, 255, 255, 255);
    let out = fg.with_background(&bg);
    assert_eq!(out.a, 255);
    assert_eq!(out.b, 255);
    assert!((out.r as i32 - 127).abs() <= 1);
    assert_eq!(out.r, out.g);
}

#[test]
fn over_keeps_opacity_monotone() {
    let fg = c(40, 40, 40, 100);
    let bg = c(0, 0, 0, 30);
    assert!(fg.with_background(&bg).a >= 100);
}

#[test]
fn hex_six_digits_is_opaque() {
    assert_eq!(Color::from_hex(b"ff8000"), Some(c(255, 128, 0, 255)));
}

#[test]
fn hex_eight_digits_carries_alpha() {
    assert_eq!(Color::from_hex(b"00ff00cc"), Some(c(0, 255, 0, 0xcc)));
    assert_eq!(Color::from_hex(b"A1B2C3D4"), Some(c(0xa1, 0xb2, 0xc3, 0xd4)));
}

#[test]
fn hex_rejects_bad_input() {
    assert!(Color::from_hex(b"12345").is_none());
    assert!(Color::from_hex(b"1234567").is_none());
    assert!(Color::from_hex(b"zzzzzz").is_none());
    assert!(Color::from_hex(b"").is_none());
    assert!(Color::from_hex(b"ff80g0").is_none());
}

#[test]
fn darken_saturates_at_zero() {
    let mut col = c(100, 5, 0, 200);
    col.darken(10);
    assert_eq!(col, c(90, 0, 0, 200));
}

#[test]
fn lighten_up_saturates_at_255() {
    let mut col = c(250, 100, 0, 13);
    col.lighten_up(10);
    assert_eq!(col, c(255, 110, 10, 13));
}

#[test]
fn default_color_is_fully_transparent() {
    let col = Color::default();
    assert_eq!(col, c(0, 0, 0, 0));
    assert_eq!(col.alpha(), 0);
}
