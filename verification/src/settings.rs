//! Turning the command-line choices into what the generator needs.

use vstd::prelude::*;

use crate::color::Color;
use crate::hex::{hex_color_of, parse_hex_color, HexColorError};
use crate::identicon::IdenticonConfig;

verus! {

/// Where the data to hash is read from.
#[derive(Debug, Clone, Copy, PartialEq, Eq, Structural)]
pub enum InputSource {
    /// The text given on the command line.
    Text,
    /// The file given on the command line.
    File,
    /// Standard input.
    Stdin,
}

/// A text and a file were both given as input.
#[derive(Debug, Clone, Copy, PartialEq, Eq, Structural)]
pub struct ConflictingInputs;

/// Picks the input: the text or the file when exactly one is given,
/// standard input when neither is, and an error when both are.
pub fn input_source(text_given: bool, file_given: bool) -> (res: Result<InputSource, ConflictingInputs>)
    ensures
        res == (if text_given && file_given {
            Err(ConflictingInputs)
        } else if text_given {
            Ok(InputSource::Text)
        } else if file_given {
            Ok(InputSource::File)
        } else {
            Ok(InputSource::Stdin)
        }),
{
    match (text_given, file_given) {
        (true, false) => Ok(InputSource::Text),
        (false, true) => Ok(InputSource::File),
        (false, false) => Ok(InputSource::Stdin),
        (true, true) => Err(ConflictingInputs),
    }
}

/// The settings for a `size` x `size` image with `pixel_size` cells, on
/// the default background or, when given, on the color `background`
/// describes in hexadecimal.
pub fn create_config(size: u32, pixel_size: u32, background: Option<&str>) -> (res: Result<
    IdenticonConfig,
    HexColorError,
>)
    ensures
        match background {
            None => res == Ok::<IdenticonConfig, HexColorError>(
                IdenticonConfig { size, pixel_size, background: Color { r: 240, g: 240, b: 240 } },
            ),
            Some(hex) => match hex_color_of(hex@) {
                Ok(c) => res == Ok::<IdenticonConfig, HexColorError>(
                    IdenticonConfig { size, pixel_size, background: c },
                ),
                Err(e) => res == Err::<IdenticonConfig, HexColorError>(e),
            },
        },
{
    let mut config = IdenticonConfig { size, pixel_size, ..IdenticonConfig::default() };
    if let Some(bg_color) = background {
        config.background = parse_hex_color(bg_color)?;
    }
    Ok(config)
}

} // verus!
