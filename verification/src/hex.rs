//! Parsing of "#rrggbb" hex color strings into channel tuples.

use vstd::prelude::*;
use vstd::string::StrSliceExecFns;

verus! {

/// Whether `c` is an ASCII hexadecimal digit.
pub open spec fn is_hex_digit(c: char) -> bool {
    ('0' <= c && c <= '9') || ('a' <= c && c <= 'f') || ('A' <= c && c <= 'F')
}

/// The numeric value of a hexadecimal digit.
pub open spec fn hex_val(c: char) -> int {
    if '0' <= c && c <= '9' {
        c as int - '0' as int
    } else if 'a' <= c && c <= 'f' {
        c as int - 'a' as int + 10
    } else {
        c as int - 'A' as int + 10
    }
}

/// The byte named by the two hexadecimal digits `hi` then `lo`.
pub open spec fn hex_byte(hi: char, lo: char) -> int {
    16 * hex_val(hi) + hex_val(lo)
}

/// Whether `s` is a well-formed color string: '#' followed by at
/// least six hexadecimal digits. Anything after the sixth digit is
/// ignored.
pub open spec fn valid_hex_color(s: Seq<char>) -> bool {
    s.len() >= 7 && s[0] == '#' && (forall|i: int| 1 <= i < 7 ==> is_hex_digit(#[trigger] s[i]))
}

/// The channel tuple named by a well-formed color string: three hex
/// byte pairs and a fully opaque alpha.
pub open spec fn hex_color_spec(s: Seq<char>) -> (u8, u8, u8, u8) {
    (
        hex_byte(s[1], s[2]) as u8,
        hex_byte(s[3], s[4]) as u8,
        hex_byte(s[5], s[6]) as u8,
        255u8,
    )
}

/// The numeric value of one hexadecimal digit character.
fn hex_digit_value(c: char) -> (v: u8)
    requires
        is_hex_digit(c),
    ensures
        v == hex_val(c),
        v < 16,
{
    match c {
        '0' => 0,
        '1' => 1,
        '2' => 2,
        '3' => 3,
        '4' => 4,
        '5' => 5,
        '6' => 6,
        '7' => 7,
        '8' => 8,
        '9' => 9,
        'a' | 'A' => 10,
        'b' | 'B' => 11,
        'c' | 'C' => 12,
        'd' | 'D' => 13,
        'e' | 'E' => 14,
        _ => 15,
    }
}

/// The byte named by the hexadecimal digits at positions `i` and
/// `i + 1` of `s`.
fn hex_byte_at(s: &str, i: usize) -> (v: u8)
    requires
        i + 1 < s@.len(),
        i < 6,
        is_hex_digit(s@[i as int]),
        is_hex_digit(s@[i + 1]),
    ensures
        v == hex_byte(s@[i as int], s@[i + 1]),
{
    let hi = hex_digit_value(s.get_char(i));
    let lo = hex_digit_value(s.get_char(i + 1));
    16 * hi + lo
}

/// Parse a "#rrggbb" color string into (red, green, blue, alpha)
/// channels; the alpha channel is always fully opaque, and characters
/// after the sixth digit are ignored.
pub fn convert_hex_color_string(hex_string: String) -> (rgba: (u8, u8, u8, u8))
    requires
        valid_hex_color(hex_string@),
    ensures
        rgba == hex_color_spec(hex_string@),
{
    let s: &str = hex_string.as_str();
    let red = hex_byte_at(s, 1);
    let green = hex_byte_at(s, 3);
    let blue = hex_byte_at(s, 5);
    (red, green, blue, 255)
}

} // verus!
