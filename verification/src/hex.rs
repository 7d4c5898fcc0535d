//! Hexadecimal text: colors written as `rrggbb` and bytes written as
//! lowercase hex digits.

use vstd::prelude::*;
use vstd::string::StringSliceAdditionalSpecFns;
use vstd::utf8::encode_utf8;

use crate::color::Color;
use crate::nibbler::{high_nibble, low_nibble, nibbles_of};

verus! {

/// Why a color could not be read from its hexadecimal form.
#[derive(Debug, Clone, Copy, PartialEq, Eq, Structural)]
pub enum HexColorError {
    /// The color is not six bytes long once leading `#` are removed.
    InvalidLength,
    /// The red channel (first two bytes) is not two hexadecimal digits.
    InvalidRed,
    /// The green channel (middle two bytes) is not two hexadecimal digits.
    InvalidGreen,
    /// The blue channel (last two bytes) is not two hexadecimal digits.
    InvalidBlue,
}

/// The number of `#` characters `s` starts with.
pub open spec fn leading_hashes(s: Seq<char>) -> int
    decreases s.len(),
{
    if s.len() > 0 && s[0] == '#' {
        1 + leading_hashes(s.drop_first())
    } else {
        0
    }
}

/// The value of an ASCII hexadecimal digit (either case).
pub open spec fn hex_digit_value(b: u8) -> Option<u8> {
    if 48 <= b <= 57 {
        Some((b - 48) as u8)
    } else if 97 <= b <= 102 {
        Some((b - 87) as u8)
    } else if 65 <= b <= 70 {
        Some((b - 55) as u8)
    } else {
        None
    }
}

/// The value of a sequence of hexadecimal digits, most significant first.
pub open spec fn hex_digits_value(s: Seq<u8>) -> Option<nat>
    decreases s.len(),
{
    if s.len() == 0 {
        Some(0)
    } else {
        match (hex_digits_value(s.drop_last()), hex_digit_value(s.last())) {
            (Some(v), Some(d)) => Some(v * 16 + d as nat),
            _ => None,
        }
    }
}

/// What `u8::from_str_radix(s, 16)` gives for the bytes `s`: an optional
/// `+` followed by at least one hexadecimal digit, of value at most 255.
pub open spec fn parse_radix16_u8(s: Seq<u8>) -> Option<u8> {
    let digits = if s.len() > 0 && s[0] == 43 {
        s.drop_first()
    } else {
        s
    };
    if digits.len() == 0 {
        None
    } else {
        match hex_digits_value(digits) {
            Some(v) => if v <= 255 {
                Some(v as u8)
            } else {
                None
            },
            None => None,
        }
    }
}

/// The bytes of a color text once its leading `#` are removed.
pub open spec fn hex_color_bytes(hex: Seq<char>) -> Seq<u8> {
    encode_utf8(hex.skip(leading_hashes(hex)))
}

/// The value of two hexadecimal digits, most significant first, or `None`
/// when either byte is not a hexadecimal digit.
pub open spec fn hex_pair_value(s: Seq<u8>) -> Option<u8> {
    match (hex_digit_value(s[0]), hex_digit_value(s[1])) {
        (Some(hi), Some(lo)) => Some((hi * 16 + lo) as u8),
        _ => None,
    }
}

/// The color a text describes, or why it describes none: once leading `#`
/// are removed it must be six bytes, all hexadecimal digits (either case),
/// read as `rrggbb`. The first channel that is not two hexadecimal digits
/// names the error.
pub open spec fn hex_color_of(hex: Seq<char>) -> Result<Color, HexColorError> {
    let b = hex_color_bytes(hex);
    if b.len() != 6 {
        Err(HexColorError::InvalidLength)
    } else {
        match hex_pair_value(b.subrange(0, 2)) {
            None => Err(HexColorError::InvalidRed),
            Some(r) => match hex_pair_value(b.subrange(2, 4)) {
                None => Err(HexColorError::InvalidGreen),
                Some(g) => match hex_pair_value(b.subrange(4, 6)) {
                    None => Err(HexColorError::InvalidBlue),
                    Some(bl) => Ok(Color { r, g, b: bl }),
                },
            },
        }
    }
}

/// `str::trim_start_matches('#')`: the text without its leading `#`
/// characters.
#[verifier::external_body]
fn trim_leading_hashes(s: &str) -> (r: &str)
    ensures
        r@ == s@.skip(leading_hashes(s@)),
{
    s.trim_start_matches('#')
}

/// `u8::from_str_radix(s, 16)`, with the error dropped: its documentation
/// accepts an optional `+` followed by hexadecimal digits (either case)
/// whose value fits in a `u8`, and nothing else.
#[verifier::external_body]
fn parse_hex_byte(s: &str) -> (r: Option<u8>)
    ensures
        r == parse_radix16_u8(s.spec_bytes()),
{
    u8::from_str_radix(s, 16).ok()
}

/// Whether a byte is an ASCII hexadecimal digit.
fn is_hex_digit(b: u8) -> (res: bool)
    ensures
        res == (hex_digit_value(b) is Some),
{
    (48 <= b && b <= 57) || (97 <= b && b <= 102) || (65 <= b && b <= 70)
}

/// Two hexadecimal digits read as by `u8::from_str_radix`: their value.
proof fn lemma_radix16_of_hex_pair(s: Seq<u8>)
    requires
        s.len() == 2,
        hex_pair_value(s) is Some,
    ensures
        parse_radix16_u8(s) == hex_pair_value(s),
{
    let hi = hex_digit_value(s[0]).unwrap();
    let lo = hex_digit_value(s[1]).unwrap();
    assert(s.drop_last() =~= seq![s[0]]);
    assert(s.drop_last().drop_last() =~= Seq::<u8>::empty());
    assert(hex_digits_value(s.drop_last().drop_last()) == Some(0nat));
    assert(hex_digits_value(s.drop_last()) == Some(hi as nat));
    assert(hex_digits_value(s) == Some((hi * 16 + lo) as nat));
}

/// Reads a color written as six hexadecimal digits `rrggbb` (either case),
/// with any number of leading `#`. Any other text gives an error, which
/// names the length or the first channel that is not two hexadecimal digits.
pub fn parse_hex_color(hex: &str) -> (res: Result<Color, HexColorError>)
    ensures
        res == hex_color_of(hex@),
{
    let digits = trim_leading_hashes(hex);
    let ghost b = digits.spec_bytes();
    assert(b == hex_color_bytes(hex@));
    let bytes = digits.as_bytes();
    if bytes.len() != 6 {
        return Err(HexColorError::InvalidLength);
    }
    assert(bytes@.subrange(0, 2) =~= seq![bytes@[0], bytes@[1]]);
    assert(bytes@.subrange(2, 4) =~= seq![bytes@[2], bytes@[3]]);
    assert(bytes@.subrange(4, 6) =~= seq![bytes@[4], bytes@[5]]);
    if !(is_hex_digit(bytes[0]) && is_hex_digit(bytes[1])) {
        return Err(HexColorError::InvalidRed);
    }
    if !(is_hex_digit(bytes[2]) && is_hex_digit(bytes[3])) {
        return Err(HexColorError::InvalidGreen);
    }
    if !(is_hex_digit(bytes[4]) && is_hex_digit(bytes[5])) {
        return Err(HexColorError::InvalidBlue);
    }
    // All six bytes are ASCII digits, so the cuts at bytes 2 and 4 fall
    // between characters.
    proof {
        vstd::utf8::encode_utf8_valid_utf8(digits@);
        vstd::utf8::is_char_boundary_iff_not_is_continuation_byte(b, 2);
    }
    let (red, rest) = digits.split_at(2);
    assert(red.spec_bytes() =~= b.subrange(0, 2));
    assert(rest.spec_bytes()[2] == b[4]);
    proof {
        vstd::utf8::encode_utf8_valid_utf8(rest@);
        vstd::utf8::is_char_boundary_iff_not_is_continuation_byte(rest.spec_bytes(), 2);
    }
    let (green, blue) = rest.split_at(2);
    assert(green.spec_bytes() =~= b.subrange(2, 4));
    assert(blue.spec_bytes() =~= b.subrange(4, 6));
    proof {
        lemma_radix16_of_hex_pair(b.subrange(0, 2));
        lemma_radix16_of_hex_pair(b.subrange(2, 4));
        lemma_radix16_of_hex_pair(b.subrange(4, 6));
    }
    let r = match parse_hex_byte(red) {
        Some(v) => v,
        None => return Err(HexColorError::InvalidRed),
    };
    let g = match parse_hex_byte(green) {
        Some(v) => v,
        None => return Err(HexColorError::InvalidGreen),
    };
    let bl = match parse_hex_byte(blue) {
        Some(v) => v,
        None => return Err(HexColorError::InvalidBlue),
    };
    Ok(Color { r, g, b: bl })
}

/// The lowercase hexadecimal digit of a value below 16.
pub open spec fn hex_char(n: u8) -> char {
    if n < 10 {
        (48 + n) as char
    } else {
        (87 + n) as char
    }
}

/// Bytes written as lowercase hexadecimal, two digits per byte.
pub open spec fn hex_lower(bytes: Seq<u8>) -> Seq<char> {
    nibbles_of(bytes).map_values(|n: u8| hex_char(n))
}

pub assume_specification[ String::push ](s: &mut String, ch: char)
    ensures
        final(s)@ == old(s)@.push(ch),
;

/// The lowercase hexadecimal digit of `n`.
fn hex_digit_char(n: u8) -> (c: char)
    requires
        n < 16,
    ensures
        c == hex_char(n),
{
    if n < 10 {
        (48 + n) as char
    } else {
        (87 + n) as char
    }
}

/// Writes `bytes` as lowercase hexadecimal, two digits per byte.
pub fn format_hex(bytes: &[u8]) -> (res: String)
    ensures
        res@ == hex_lower(bytes@),
{
    let mut res = String::new();
    let mut i: usize = 0;
    proof {
        crate::nibbler::lemma_nibbles_below_16(bytes@);
    }
    while i < bytes.len()
        invariant
            i <= bytes.len(),
            res@ =~= hex_lower(bytes@).subrange(0, 2 * i),
            forall|k: int| 0 <= k < nibbles_of(bytes@).len() ==> #[trigger] nibbles_of(bytes@)[k] < 16,
        decreases bytes.len() - i,
    {
        let byte = bytes[i];
        let high = (byte & 0xf0) >> 4;
        let low = byte & 0x0f;
        assert(nibbles_of(bytes@)[2 * i] == high_nibble(byte));
        assert(nibbles_of(bytes@)[2 * i + 1] == low_nibble(byte));
        res.push(hex_digit_char(high));
        res.push(hex_digit_char(low));
        i = i + 1;
    }
    res
}

/// A lowercase hex digit is an ASCII character other than `#` and `+`
/// that reads back as its value.
proof fn lemma_hex_char(n: u8)
    requires
        n < 16,
    ensures
        '\0' <= hex_char(n) <= '\u{7f}',
        hex_char(n) != '#',
        hex_digit_value(hex_char(n) as u8) == Some(n),
{
}

/// Two lowercase hex digits read back as the byte they were written from.
proof fn lemma_hex_pair(b: u8)
    ensures
        hex_pair_value(seq![hex_char(high_nibble(b)) as u8, hex_char(low_nibble(b)) as u8])
            == Some(b),
{
    let hi = high_nibble(b);
    let lo = low_nibble(b);
    assert(hi < 16 && lo < 16 && hi * 16 + lo == b) by (bit_vector)
        requires
            hi == (b & 0xf0u8) >> 4u8,
            lo == b & 0x0fu8,
    ;
    lemma_hex_char(hi);
    lemma_hex_char(lo);
}

/// Writing a color's channels as hex and reading them back gives the color:
/// `parse_hex_color(&format_hex(&[r, g, b]))` is `Ok` of that color.
pub proof fn lemma_format_then_parse(r: u8, g: u8, b: u8)
    ensures
        hex_color_of(hex_lower(seq![r, g, b])) == Ok::<Color, HexColorError>(Color { r, g, b }),
{
    let bytes = seq![r, g, b];
    let s = hex_lower(bytes);
    crate::nibbler::lemma_nibbles_below_16(bytes);
    assert forall|i: int| 0 <= i < 6 implies s[i] == hex_char(nibbles_of(bytes)[i]) && '\0'
        <= #[trigger] s[i] <= '\u{7f}' && s[i] != '#' by {
        lemma_hex_char(nibbles_of(bytes)[i]);
    }
    assert(leading_hashes(s) == 0);
    assert(s.skip(0) =~= s);
    vstd::utf8::is_ascii_chars_encode_utf8(s);
    let e = hex_color_bytes(s);
    assert(e.len() == 6);
    assert(nibbles_of(bytes)[0] == high_nibble(r) && nibbles_of(bytes)[1] == low_nibble(r));
    assert(nibbles_of(bytes)[2] == high_nibble(g) && nibbles_of(bytes)[3] == low_nibble(g));
    assert(nibbles_of(bytes)[4] == high_nibble(b) && nibbles_of(bytes)[5] == low_nibble(b));
    assert(e.subrange(0, 2) =~= seq![hex_char(high_nibble(r)) as u8, hex_char(low_nibble(r)) as u8]);
    assert(e.subrange(2, 4) =~= seq![hex_char(high_nibble(g)) as u8, hex_char(low_nibble(g)) as u8]);
    assert(e.subrange(4, 6) =~= seq![hex_char(high_nibble(b)) as u8, hex_char(low_nibble(b)) as u8]);
    lemma_hex_pair(r);
    lemma_hex_pair(g);
    lemma_hex_pair(b);
}

/// Uppercase hex reads like lowercase hex: writing a color's channels with
/// the digits `0`-`9`, `A`-`F` (high nibble first) and reading them back
/// gives the color.
pub proof fn lemma_uppercase_format_then_parse(r: u8, g: u8, b: u8)
    ensures
        hex_color_of(
            nibbles_of(seq![r, g, b]).map_values(
                |n: u8|
                    (if n < 10 {
                        48 + n
                    } else {
                        55 + n
                    }) as char,
            ),
        ) == Ok::<Color, HexColorError>(Color { r, g, b }),
{
    let bytes = seq![r, g, b];
    let up = |n: u8|
        (if n < 10 {
            48 + n
        } else {
            55 + n
        }) as char;
    let s = nibbles_of(bytes).map_values(up);
    crate::nibbler::lemma_nibbles_below_16(bytes);
    assert forall|i: int| 0 <= i < 6 implies '\0' <= #[trigger] s[i] <= '\u{7f}' && s[i] != '#'
        && hex_digit_value(s[i] as u8) == Some(nibbles_of(bytes)[i]) by {
        assert(nibbles_of(bytes)[i] < 16);
    }
    assert(leading_hashes(s) == 0);
    assert(s.skip(0) =~= s);
    vstd::utf8::is_ascii_chars_encode_utf8(s);
    let e = hex_color_bytes(s);
    assert(e.len() == 6);
    assert forall|byte: u8| #[trigger] high_nibble(byte) * 16 + low_nibble(byte) == byte by {
        assert(((byte & 0xf0u8) >> 4u8) * 16 + (byte & 0x0fu8) == byte) by (bit_vector);
    }
    assert(nibbles_of(bytes)[0] == high_nibble(r) && nibbles_of(bytes)[1] == low_nibble(r));
    assert(nibbles_of(bytes)[2] == high_nibble(g) && nibbles_of(bytes)[3] == low_nibble(g));
    assert(nibbles_of(bytes)[4] == high_nibble(b) && nibbles_of(bytes)[5] == low_nibble(b));
    assert(high_nibble(r) * 16 + low_nibble(r) == r);
    assert(high_nibble(g) * 16 + low_nibble(g) == g);
    assert(high_nibble(b) * 16 + low_nibble(b) == b);
    assert(hex_pair_value(e.subrange(0, 2)) == Some(r));
    assert(hex_pair_value(e.subrange(2, 4)) == Some(g));
    assert(hex_pair_value(e.subrange(4, 6)) == Some(b));
}

/// The count of leading `#` lies within the text.
proof fn lemma_leading_hashes_bounded(s: Seq<char>)
    ensures
        0 <= leading_hashes(s) <= s.len(),
    decreases s.len(),
{
    if s.len() > 0 && s[0] == '#' {
        lemma_leading_hashes_bounded(s.drop_first());
    }
}

/// Leading `#` characters make no difference to how a color text reads.
pub proof fn lemma_hash_prefix_ignored(hex: Seq<char>)
    ensures
        hex_color_of(seq!['#'] + hex) == hex_color_of(hex),
{
    let s = seq!['#'] + hex;
    assert(s.drop_first() =~= hex);
    assert(leading_hashes(s) == 1 + leading_hashes(hex));
    let k = leading_hashes(hex);
    assert(0 <= k <= hex.len()) by {
        lemma_leading_hashes_bounded(hex);
    }
    assert(s.skip(leading_hashes(s)) =~= hex.skip(k));
}

} // verus!
