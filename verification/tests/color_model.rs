use fireworks::color::Hsl;
use fireworks::color::Rgb;

fn roundtrip(r: u8, g: u8, b: u8) -> Rgb {
    Rgb::from_rgb(r, g, b).as_hsl().as_rgb()
}

fn assert_close(a: Rgb, b: Rgb) {
    let dr = (a.r as i32 - b.r as i32).abs();
    let dg = (a.g as i32 - b.g as i32).abs();
    let db = (a.b as i32 - b.b as i32).abs();
    assert!(
        dr <= 1 && dg <= 1 && db <= 1,
        "round trip drifted: ({}, {}, {}) became ({}, {}, {})",
        a.r,
        a.g,
        a.b,
        b.r,
        b.g,
        b.b
    );
}

#[test]
fn red_to_hsl_exact() {
    let hsl = Rgb::from_rgb(255, 0, 0).as_hsl();
    assert_eq!(hsl, Hsl { h: 0, s: 100000, l: 50000 });
}

#[test]
fn white_to_hsl_exact() {
    let hsl = Rgb::from_rgb(255, 255, 255).as_hsl();
    assert_eq!(hsl, Hsl { h: 0, s: 0, l: 100000 });
}

#[test]
fn black_to_hsl_exact() {
    let hsl = Rgb::from_rgb(0, 0, 0).as_hsl();
    assert_eq!(hsl, Hsl { h: 0, s: 0, l: 0 });
}

#[test]
fn green_to_hsl_exact() {
    let hsl = Rgb::from_rgb(0, 255, 0).as_hsl();
    assert_eq!(hsl, Hsl { h: 120000, s: 100000, l: 50000 });
}

#[test]
fn blue_round_trips_exactly() {
    let c = Rgb::from_rgb(0, 0, 255);
    assert_eq!(roundtrip(0, 0, 255), c);
}

#[test]
fn primary_corners_round_trip() {
    for &(r, g, b) in &[
        (0u8, 0u8, 0u8),
        (255, 255, 255),
        (255, 0, 0),
        (0, 255, 0),
        (0, 0, 255),
        (255, 255, 0),
        (0, 255, 255),
        (255, 0, 255),
    ] {
        let c = Rgb::from_rgb(r, g, b);
        assert_close(c, roundtrip(r, g, b));
    }
}

#[test]
fn sampled_cube_round_trips_within_one() {
    // A representative lattice over the full color cube.
    let mut r: u32 = 0;
    while r < 256 {
        let mut g: u32 = 0;
        while g < 256 {
            let mut b: u32 = 0;
            while b < 256 {
                let c = Rgb::from_rgb(r as u8, g as u8, b as u8);
                assert_close(c, roundtrip(r as u8, g as u8, b as u8));
                b += 15;
            }
            g += 15;
        }
        r += 15;
    }
}

#[test]
fn grays_round_trip_exactly() {
    let mut v: u32 = 0;
    while v < 256 {
        let c = Rgb::from_rgb(v as u8, v as u8, v as u8);
        assert_eq!(roundtrip(v as u8, v as u8, v as u8), c);
        v += 1;
    }
}

#[test]
fn hsl_new_stores_fields() {
    let c = Hsl::new(210000, 40000, 60000);
    assert_eq!(c, Hsl { h: 210000, s: 40000, l: 60000 });
}
