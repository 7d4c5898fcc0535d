use identicon::{format_hex, parse_hex_color, Color, HexColorError};

#[test]
fn parse_hex_color_valid() {
    let color = parse_hex_color("ff0000").unwrap();
    assert_eq!(color, Color { r: 255, g: 0, b: 0 });
}

#[test]
fn parse_hex_color_with_hash() {
    let color = parse_hex_color("#00ff00").unwrap();
    assert_eq!(color, Color { r: 0, g: 255, b: 0 });
}

#[test]
fn parse_hex_color_invalid_length() {
    assert!(parse_hex_color("ff00").is_err());
}

#[test]
fn parse_hex_color_reports_each_error() {
    assert_eq!(parse_hex_color("ff00"), Err(HexColorError::InvalidLength));
    assert_eq!(parse_hex_color("#"), Err(HexColorError::InvalidLength));
    assert_eq!(parse_hex_color("gg0000"), Err(HexColorError::InvalidRed));
    assert_eq!(parse_hex_color("00zz00"), Err(HexColorError::InvalidGreen));
    assert_eq!(parse_hex_color("0000-1"), Err(HexColorError::InvalidBlue));
    assert_eq!(parse_hex_color("++0000"), Err(HexColorError::InvalidRed));
}

#[test]
fn parse_hex_color_accepts_only_six_hex_digits() {
    assert_eq!(parse_hex_color("##A0b1C2"), Ok(Color { r: 0xa0, g: 0xb1, b: 0xc2 }));
    // A sign is not a hexadecimal digit.
    assert_eq!(parse_hex_color("+f+f+f"), Err(HexColorError::InvalidRed));
    assert_eq!(parse_hex_color("00+f00"), Err(HexColorError::InvalidGreen));
    assert_eq!(parse_hex_color("0000+f"), Err(HexColorError::InvalidBlue));
    assert_eq!(parse_hex_color(" 00000"), Err(HexColorError::InvalidRed));
    assert_eq!(parse_hex_color("0#0000"), Err(HexColorError::InvalidRed));
}

#[test]
fn parse_hex_color_refuses_non_ascii_text() {
    // "é" is two bytes: these texts are six bytes long but not six digits.
    assert_eq!(parse_hex_color("éabcd"), Err(HexColorError::InvalidRed));
    assert_eq!(parse_hex_color("aébcd"), Err(HexColorError::InvalidRed));
    assert_eq!(parse_hex_color("#00aéb"), Err(HexColorError::InvalidGreen));
    assert_eq!(parse_hex_color("00é12"), Err(HexColorError::InvalidGreen));
    assert_eq!(parse_hex_color("0000é"), Err(HexColorError::InvalidBlue));
    assert_eq!(parse_hex_color("é"), Err(HexColorError::InvalidLength));
}

#[test]
fn format_hex_writes_lowercase_pairs() {
    assert_eq!(format_hex(&[]), "");
    assert_eq!(format_hex(&[0x00, 0x0f, 0xde, 0xad, 0xBE, 0xef]), "000fdeadbeef");
}

#[test]
fn format_then_parse_round_trips() {
    for (r, g, b) in [(0u8, 0u8, 0u8), (255, 255, 255), (1, 128, 254), (0x0a, 0xb0, 0x7f)] {
        let text = format_hex(&[r, g, b]);
        assert_eq!(parse_hex_color(&text), Ok(Color { r, g, b }));
        assert_eq!(parse_hex_color(&format!("#{}", text)), Ok(Color { r, g, b }));
    }
}
