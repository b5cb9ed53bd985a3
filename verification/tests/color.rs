use buffer_graphics_lib::color::Color;

fn clone_and_add(initial: Color, r: isize, g: isize, b: isize, a: isize) -> Color {
    let mut color = initial;
    color.tint_add(r, g, b, a);
    color
}

#[test]
fn constructors() {
    assert_eq!(
        Color::rgb(0, 0, 0),
        Color {
            r: 0,
            g: 0,
            b: 0,
            a: 255,
        }
    );
    assert_eq!(
        Color::rgb(0, 15, 0),
        Color {
            r: 0,
            g: 15,
            b: 0,
            a: 255,
        }
    );
    assert_eq!(
        Color::rgb(0, 0, 255),
        Color {
            r: 0,
            g: 0,
            b: 255,
            a: 255,
        }
    );
    assert_eq!(
        Color::rgba(0, 0, 0, 255),
        Color {
            r: 0,
            g: 0,
            b: 0,
            a: 255,
        }
    );
    assert_eq!(
        Color::rgba(10, 22, 35, 255),
        Color {
            r: 10,
            g: 22,
            b: 35,
            a: 255,
        }
    );
    assert_eq!(
        Color::rgba(255, 255, 255, 255),
        Color {
            r: 255,
            g: 255,
            b: 255,
            a: 255,
        }
    );
    assert_eq!(
        Color::gray(255),
        Color {
            r: 255,
            g: 255,
            b: 255,
            a: 255,
        }
    );
    assert_eq!(
        Color::gray(55),
        Color {
            r: 55,
            g: 55,
            b: 55,
            a: 255,
        }
    );
}

#[test]
fn color_tint_add() {
    let initial = Color {
        r: 100,
        g: 150,
        b: 200,
        a: 255,
    };
    assert_eq!(
        clone_and_add(initial, 50, 50, 50, 0),
        Color::rgba(150, 200, 250, 255)
    );
    assert_eq!(
        clone_and_add(initial, 100, 100, 100, 0),
        Color::rgba(200, 250, 255, 255)
    );
    assert_eq!(
        clone_and_add(initial, -100, -100, -100, 0),
        Color::rgba(0, 50, 100, 255)
    );
    assert_eq!(
        clone_and_add(initial, 0, 0, 0, 0),
        Color::rgba(100, 150, 200, 255)
    );
    assert_eq!(
        clone_and_add(initial, 10, 0, 0, 0),
        Color::rgba(110, 150, 200, 255)
    );
    assert_eq!(
        clone_and_add(initial, 0, 10, 0, 0),
        Color::rgba(100, 160, 200, 255)
    );
    assert_eq!(
        clone_and_add(initial, 0, 0, 10, 0),
        Color::rgba(100, 150, 210, 255)
    );
    assert_eq!(
        clone_and_add(initial, 0, 0, 0, -10),
        Color::rgba(100, 150, 200, 245)
    );
    assert_eq!(
        clone_and_add(initial, 0, 0, 0, -500),
        Color::rgba(100, 150, 200, 0)
    );
}

#[test]
fn blend() {
    assert_eq!(
        Color::rgb(255, 255, 255).blend(Color::rgba(0, 0, 0, 0)),
        Color::rgb(255, 255, 255)
    );
    assert_eq!(
        Color::rgb(255, 255, 255).blend(Color::rgb(255, 0, 0)),
        Color::rgb(255, 0, 0)
    );
    assert_eq!(
        Color::rgb(255, 255, 255).blend(Color::rgba(255, 0, 0, 128)),
        Color::rgb(255, 127, 127)
    );
    assert_eq!(
        Color::rgba(0, 0, 255, 128).blend(Color::rgba(255, 0, 0, 128)),
        Color::rgba(170, 0, 85, 192)
    );
}

#[test]
fn from_hex() {
    assert_eq!(
        Color::from_hex("112233").unwrap(),
        Color {
            r: 17,
            g: 34,
            b: 51,
            a: 255,
        }
    );
    assert_eq!(
        Color::from_hex("#112233").unwrap(),
        Color {
            r: 17,
            g: 34,
            b: 51,
            a: 255,
        }
    );
    assert_eq!(
        Color::from_hex("#11223344").unwrap(),
        Color {
            r: 17,
            g: 34,
            b: 51,
            a: 68,
        }
    );
    assert!(Color::from_hex("#aafgha").is_err())
}

#[test]
#[allow(non_snake_case)]
fn to_hex() {
    let WHITE = Color::gray(255);
    let RED = Color::rgb(255, 0, 0);
    assert_eq!(WHITE.to_hex(), "#FFFFFFFF".to_string());
    assert_eq!(RED.to_hex(), "#FF0000FF".to_string());
}

#[test]
#[allow(non_snake_case)]
fn dark() {
    let WHITE = Color::gray(255);
    let BLACK = Color::gray(0);
    let GREEN = Color::rgb(0, 255, 0);
    let CYAN = Color::rgb(0, 255, 255);
    let RED = Color::rgb(255, 0, 0);
    let DARK_GRAY = Color::gray(75);
    let LIGHT_GRAY = Color::gray(180);
    assert!(!WHITE.is_dark());
    assert!(BLACK.is_dark());
    assert!(!GREEN.is_dark());
    assert!(!CYAN.is_dark());
    assert!(RED.is_dark());
    assert!(DARK_GRAY.is_dark());
    assert!(!LIGHT_GRAY.is_dark());
}

#[test]
fn hex_round_trip() {
    for c in [
        Color::rgba(0, 0, 0, 0),
        Color::rgba(1, 2, 3, 4),
        Color::rgba(171, 205, 239, 18),
        Color::rgba(255, 255, 255, 255),
    ] {
        assert_eq!(Color::from_hex(&c.to_hex()).unwrap(), c);
    }
}

#[test]
fn from_hex_rejects_bad_lengths() {
    assert!(Color::from_hex("").is_err());
    assert!(Color::from_hex("#").is_err());
    assert!(Color::from_hex("12345").is_err());
    assert!(Color::from_hex("1234567").is_err());
    assert!(Color::from_hex("123456789").is_err());
    assert!(Color::from_hex("#12345").is_err());
}

#[test]
fn blend_transparent_leaves_base() {
    // compositing full transparency over any covered color changes nothing
    let c = Color::rgba(12, 200, 3, 77);
    assert_eq!(c.blend(Color::rgba(0, 0, 0, 0)), c);
    let c2 = Color::rgba(9, 9, 9, 255);
    assert_eq!(c2.blend(Color::rgba(50, 60, 70, 0)), c2);
}

#[test]
fn blend_opaque_wins() {
    let over = Color::rgba(5, 6, 7, 255);
    assert_eq!(Color::rgba(200, 100, 50, 25).blend(over), over);
    assert_eq!(Color::rgba(0, 0, 0, 0).blend(over), over);
}

#[test]
fn channel_adjustments() {
    let c = Color::rgba(100, 0, 255, 9);
    assert_eq!(c.darken(), Color::rgba(90, 0, 230, 9));
    assert_eq!(c.lighten(), Color::rgba(110, 0, 255, 9));
    assert!(Color::rgba(10, 20, 30, 0).is_transparent());
    assert!(!Color::rgba(10, 20, 30, 1).is_transparent());
    let g = Color::rgba(100, 100, 100, 40);
    // a pure gray is its own luminance, so de/saturation keep it
    assert_eq!(g.desaturate(), g);
    assert_eq!(g.saturate(), g);
}

#[test]
fn i32_round_trip() {
    let c = Color::rgba(0x12, 0x34, 0x56, 0x78);
    assert_eq!(c.as_i32(), 0x12345678);
    assert_eq!(Color::from_i32(0x12345678), c);
    assert_eq!(Color::from_i32(c.as_i32()), c);
    assert_eq!(c.as_array(), [0x12, 0x34, 0x56, 0x78]);
}
