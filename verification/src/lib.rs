//! Identicons: a hash becomes a symmetric 5x5 sprite, drawn as an RGB image.
//!
//! - [`nibbler`] splits the hash into 4-bit nibbles;
//! - [`identicon`] turns the nibbles into the sprite and draws it;
//! - [`raster`] is the `image` crate's RGB buffer, as the contracts see it;
//! - [`color`] and [`hex`] hold colors and their hexadecimal form;
//! - [`digest`] hashes the input with MD5;
//! - [`settings`] turns command-line choices into generator settings.
//!
//! The foreground color comes from HSL values computed in floating point,
//! which this library leaves to its caller: [`Identicon::foreground_source`]
//! says which bytes of the hash that computation starts from.

pub mod color;
pub mod digest;
pub mod hex;
pub mod identicon;
pub mod nibbler;
pub mod raster;
pub mod settings;

pub use color::Color;
pub use digest::calculate_md5;
pub use hex::{format_hex, parse_hex_color, HexColorError};
pub use identicon::{ForegroundSource, Identicon, IdenticonConfig};
pub use nibbler::Nibbler;
pub use raster::Raster;
pub use settings::{create_config, input_source, ConflictingInputs, InputSource};
