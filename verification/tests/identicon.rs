use identicon::{Color, ForegroundSource, Identicon, IdenticonConfig};
use image::Rgb;

// The foreground color as the command-line tool computes it from the
// hash: HSL values in floating point, converted to RGB.
fn hue_to_rgb(a: f32, b: f32, hue: f32) -> f32 {
    let h = match hue {
        h if h < 0.0 => h + 1.0,
        h if h > 1.0 => h - 1.0,
        h => h,
    };
    match h {
        h if h < 1.0 / 6.0 => a + (b - a) * 6.0 * h,
        h if h < 1.0 / 2.0 => b,
        h if h < 2.0 / 3.0 => a + (b - a) * (2.0 / 3.0 - h) * 6.0,
        _ => a,
    }
}

fn hsl_to_rgb(hue: f32, saturation: f32, lightness: f32) -> Color {
    let hue = hue / 360.0;
    let sat = saturation / 100.0;
    let lum = lightness / 100.0;
    let b = if lum <= 0.5 { lum * (sat + 1.0) } else { lum + sat - lum * sat };
    let a = lum * 2.0 - b;
    let r = hue_to_rgb(a, b, hue + 1.0 / 3.0);
    let g = hue_to_rgb(a, b, hue);
    let b = hue_to_rgb(a, b, hue - 1.0 / 3.0);
    Color {
        r: (r * 255.0).round() as u8,
        g: (g * 255.0).round() as u8,
        b: (b * 255.0).round() as u8,
    }
}

fn map_value(value: u32, from_min: u32, from_max: u32, to_min: u32, to_max: u32) -> f32 {
    let normalized = (value - from_min) as f32 / (from_max - from_min) as f32;
    to_min as f32 + normalized * (to_max - to_min) as f32
}

fn foreground(identicon: &Identicon) -> Color {
    match identicon.foreground_source() {
        ForegroundSource::Fixed(color) => color,
        ForegroundSource::FromHash { hue, saturation, lightness } => {
            let hue = map_value(hue as u32, 0, u16::MAX as u32, 0, 360);
            let sat_offset = map_value(saturation as u32, 0, 255, 0, 20);
            let lum_offset = map_value(lightness as u32, 0, 255, 0, 20);
            hsl_to_rgb(hue, 65.0 - sat_offset, 75.0 - lum_offset)
        }
    }
}

fn rgb(c: Color) -> Rgb<u8> {
    Rgb([c.r, c.g, c.b])
}

#[test]
fn generates_consistent_image() {
    let hash = b"test hash data for identicon generation";
    let identicon = Identicon::new(hash);
    let image1 = identicon.generate(foreground(&identicon)).image;
    let image2 = identicon.generate(foreground(&identicon)).image;
    assert_eq!(image1.dimensions(), image2.dimensions());
    assert_eq!(image1.as_raw(), image2.as_raw());
}

#[test]
fn different_hashes_produce_different_images() {
    let hash1 = b"hash1";
    let hash2 = b"hash2";

    let identicon1 = Identicon::new(hash1);
    let identicon2 = Identicon::new(hash2);
    let image1 = identicon1.generate(foreground(&identicon1)).image;
    let image2 = identicon2.generate(foreground(&identicon2)).image;

    assert_ne!(image1.as_raw(), image2.as_raw());
}

#[test]
fn respects_custom_config() {
    let hash = b"test";
    let config = IdenticonConfig {
        size: 200,
        pixel_size: 40,
        background: Color { r: 255, g: 0, b: 0 },
    };

    let identicon = Identicon::with_config(hash, config);
    let image = identicon.generate(foreground(&identicon)).image;

    assert_eq!(image.dimensions(), (200, 200));
}

#[test]
fn default_config_values() {
    let config = IdenticonConfig::default();
    assert_eq!(config.size, 420);
    assert_eq!(config.pixel_size, 70);
    assert_eq!(config.background, Color { r: 240, g: 240, b: 240 });
}

#[test]
fn foreground_source_reads_the_last_four_bytes() {
    assert_eq!(
        Identicon::new(&[1, 2, 3]).foreground_source(),
        ForegroundSource::Fixed(Color { r: 100, g: 100, b: 100 })
    );
    assert_eq!(
        Identicon::new(&[9, 0x12, 0x34, 0x56, 0x78]).foreground_source(),
        ForegroundSource::FromHash { hue: 0x1234, saturation: 0x56, lightness: 0x78 }
    );
}

#[test]
fn even_nibbles_paint_every_cell() {
    let config = IdenticonConfig { size: 60, pixel_size: 10, background: Color { r: 1, g: 2, b: 3 } };
    let fg = Color { r: 9, g: 8, b: 7 };
    let identicon = Identicon::with_config(&[0x00; 8], config.clone());
    let image = identicon.generate(fg).image;
    for (x, y, expected) in [
        (0, 0, config.background),
        (4, 30, config.background),
        (5, 5, fg),
        (30, 30, fg),
        (54, 54, fg),
        (55, 54, config.background),
        (59, 59, config.background),
    ] {
        assert_eq!(*image.get_pixel(x, y), rgb(expected));
    }
}

#[test]
fn odd_nibbles_paint_nothing() {
    let config = IdenticonConfig { size: 60, pixel_size: 10, background: Color { r: 1, g: 2, b: 3 } };
    let identicon = Identicon::with_config(&[0x11; 8], config.clone());
    let image = identicon.generate(Color { r: 9, g: 8, b: 7 }).image;
    assert!(image.pixels().all(|p| *p == rgb(config.background)));
}

#[test]
fn short_hash_paints_only_the_cells_its_nibbles_reach() {
    // One byte gives the nibbles of (row 0, col 0) and (row 1, col 0),
    // mirrored to column 4; 0x02 makes both even.
    let config = IdenticonConfig { size: 60, pixel_size: 10, background: Color { r: 0, g: 0, b: 0 } };
    let fg = Color { r: 255, g: 255, b: 255 };
    let identicon = Identicon::with_config(&[0x02], config.clone());
    let image = identicon.generate(fg).image;
    for (x, y, expected) in [
        (5, 5, fg),
        (45, 5, fg),
        (5, 15, fg),
        (45, 15, fg),
        (15, 5, config.background),
        (5, 25, config.background),
    ] {
        assert_eq!(*image.get_pixel(x, y), rgb(expected));
    }
}

#[test]
fn default_identicon_is_mirror_symmetric() {
    let hash = b"480938";
    let identicon = Identicon::new(hash);
    let image = identicon.generate(foreground(&identicon)).image;
    let size = image.width();
    for y in (0..size).step_by(7) {
        for x in 0..size {
            assert_eq!(image.get_pixel(x, y), image.get_pixel(size - 1 - x, y));
        }
    }
}

#[test]
fn only_the_first_eight_bytes_decide_the_sprite() {
    // With the same last four bytes the foreground is the same too, so
    // hashes that differ only from byte 8 on give the same image.
    let config = IdenticonConfig { size: 60, pixel_size: 10, background: Color { r: 0, g: 0, b: 0 } };
    let fg = Color { r: 255, g: 255, b: 255 };
    let a = [0x12, 0x34, 0x56, 0x78, 0x9a, 0xbc, 0xde, 0xf0, 0x01, 0x02];
    let b = [0x12, 0x34, 0x56, 0x78, 0x9a, 0xbc, 0xde, 0xf0, 0xff, 0xfe];
    let image_a = Identicon::with_config(&a, config.clone()).generate(fg).image;
    let image_b = Identicon::with_config(&b, config.clone()).generate(fg).image;
    assert_eq!(image_a.as_raw(), image_b.as_raw());
    let c = [0x13, 0x34, 0x56, 0x78, 0x9a, 0xbc, 0xde, 0xf0, 0x01, 0x02];
    let image_c = Identicon::with_config(&c, config).generate(fg).image;
    assert_ne!(image_a.as_raw(), image_c.as_raw());
}

#[test]
fn can_generate_rejects_overflowing_cells() {
    let ok = IdenticonConfig { size: 10, pixel_size: 700_000_000, background: Color { r: 0, g: 0, b: 0 } };
    assert!(Identicon::with_config(&[0x00; 8], ok.clone()).can_generate());
    let too_big = IdenticonConfig { size: 10, pixel_size: 800_000_000, background: Color { r: 0, g: 0, b: 0 } };
    assert!(!Identicon::with_config(&[0x00; 8], too_big.clone()).can_generate());
    // No painted cell: nothing to overflow.
    assert!(Identicon::with_config(&[0x11; 8], too_big).can_generate());
    assert!(Identicon::new(b"abc").can_generate());
}
