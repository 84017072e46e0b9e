use frameseed::color::Rgba;

#[test]
fn from_hex_with_hash() {
    assert_eq!(Rgba::from_hex("#ff5e4d"), Some(Rgba::new(255, 94, 77, 255)));
}

#[test]
fn from_hex_without_hash() {
    assert_eq!(Rgba::from_hex("ffc857"), Some(Rgba::new(255, 200, 87, 255)));
}

#[test]
fn from_hex_invalid_returns_none() {
    assert_eq!(Rgba::from_hex("xyz"), None);
    assert_eq!(Rgba::from_hex("#12345"), None);
}

#[test]
fn to_hex_roundtrip() {
    let c = Rgba::new(255, 94, 77, 255);
    assert_eq!(Rgba::from_hex(&c.to_hex()), Some(c));
}

#[test]
fn test_black() {
    assert_eq!(Rgba::black(), Rgba::new(0, 0, 0, 255));
}

#[test]
fn test_white() {
    assert_eq!(Rgba::white(), Rgba::new(255, 255, 255, 255));
}

#[test]
fn to_hex_is_lowercase_with_leading_hash() {
    assert_eq!(Rgba::new(255, 94, 77, 255).to_hex(), "#ff5e4d");
    assert_eq!(Rgba::new(0, 10, 171, 3).to_hex(), "#000aab");
}

#[test]
fn from_hex_accepts_upper_case_digits() {
    assert_eq!(Rgba::from_hex("#FFC857"), Some(Rgba::new(255, 200, 87, 255)));
}

#[test]
fn from_hex_strips_every_leading_hash() {
    assert_eq!(Rgba::from_hex("##000000"), Some(Rgba::new(0, 0, 0, 255)));
}

#[test]
fn from_hex_rejects_wrong_lengths_and_digits() {
    assert_eq!(Rgba::from_hex(""), None);
    assert_eq!(Rgba::from_hex("#1234567"), None);
    assert_eq!(Rgba::from_hex("#12345g"), None);
    assert_eq!(Rgba::from_hex("#é12345"), None);
}

#[test]
fn from_hex_rejects_a_plus_sign() {
    assert_eq!(Rgba::from_hex("+f0000"), None);
    assert_eq!(Rgba::from_hex("+f+f+f"), None);
    assert_eq!(Rgba::from_hex("#0+f000"), None);
}

#[test]
fn invert_keeps_alpha_and_is_its_own_inverse() {
    let c = Rgba::new(10, 200, 0, 77);
    assert_eq!(c.invert(), Rgba::new(245, 55, 255, 77));
    assert_eq!(c.invert().invert(), c);
}

#[test]
fn every_gray_round_trips_through_hex() {
    for v in 0..=255u8 {
        let c = Rgba::new(v, 255 - v, v / 2, 255);
        assert_eq!(Rgba::from_hex(&c.to_hex()), Some(c));
    }
}
