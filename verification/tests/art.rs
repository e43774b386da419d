use raven_gaming::art::{hash, Rgb};

fn channel(value: u8) -> f64 {
    value as f64 / 255.0
}

#[test]
fn a_hex_accent_becomes_a_colour() {
    let white = Rgb::from_hex("#FFFFFF");
    assert!((channel(white.r) - 1.0).abs() < 1e-9 && (channel(white.b) - 1.0).abs() < 1e-9);
    let raven = Rgb::from_hex("#7AA2F7");
    assert!((channel(raven.r) - 0.478).abs() < 0.01);
    assert!((channel(raven.g) - 0.635).abs() < 0.01);
    assert!((channel(raven.b) - 0.969).abs() < 0.01);
}

#[test]
fn a_bad_accent_never_paints_a_black_window() {
    for bad in ["", "red", "#FFF", "#GGGGGG", "7AA2F7", "#7AA2F7FF"] {
        assert_eq!(Rgb::from_hex(bad), Rgb::fallback(), "accepted {bad:?}");
    }
}

#[test]
fn the_fallback_is_the_desktops_own_default() {
    assert_eq!(Rgb::from_hex("#7AA2F7"), Rgb::fallback());
}

#[test]
fn hexadecimal_digits_of_either_case_are_read() {
    assert_eq!(Rgb::from_hex("#0a1B2c"), Rgb { r: 10, g: 27, b: 44 });
    assert_eq!(Rgb::from_hex("#0A1b2C"), Rgb { r: 10, g: 27, b: 44 });
}

#[test]
fn a_hash_is_the_same_every_time_and_fits_a_double() {
    assert_eq!(hash(0x1111, 3), hash(0x1111, 3));
    assert_ne!(hash(0x1111, 3), hash(0x2222, 3));
    for seed in [0u64, 1, 0x1111, 0x7777, u64::MAX] {
        for index in 0..64 {
            assert!(hash(seed, index) < 1 << 53);
        }
    }
}

#[test]
fn a_sign_is_no_digit() {
    for bad in ["#+1+2+3", "#+10000", "#00+100"] {
        assert_eq!(Rgb::from_hex(bad), Rgb::fallback(), "accepted {bad:?}");
    }
}
