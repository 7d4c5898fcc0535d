use identicon::{create_config, input_source, Color, ConflictingInputs, HexColorError, InputSource};

#[test]
fn input_source_follows_what_was_given() {
    assert_eq!(input_source(true, false), Ok(InputSource::Text));
    assert_eq!(input_source(false, true), Ok(InputSource::File));
    assert_eq!(input_source(false, false), Ok(InputSource::Stdin));
    assert_eq!(input_source(true, true), Err(ConflictingInputs));
}

#[test]
fn create_config_uses_default_background() {
    let config = create_config(600, 100, None).unwrap();
    assert_eq!(config.size, 600);
    assert_eq!(config.pixel_size, 100);
    assert_eq!(config.background, Color { r: 240, g: 240, b: 240 });
}

#[test]
fn create_config_reads_background() {
    let config = create_config(420, 70, Some("f0f0f0")).unwrap();
    assert_eq!(config.background, Color { r: 0xf0, g: 0xf0, b: 0xf0 });
    let config = create_config(420, 70, Some("#102030")).unwrap();
    assert_eq!(config.background, Color { r: 0x10, g: 0x20, b: 0x30 });
    assert_eq!(create_config(420, 70, Some("12345")).unwrap_err(), HexColorError::InvalidLength);
    assert_eq!(create_config(420, 70, Some("1234x5")).unwrap_err(), HexColorError::InvalidBlue);
    assert_eq!(create_config(420, 70, Some("+1+2+3")).unwrap_err(), HexColorError::InvalidRed);
    assert_eq!(create_config(420, 70, Some("aébcd")).unwrap_err(), HexColorError::InvalidRed);
}
