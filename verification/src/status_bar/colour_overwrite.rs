use vstd::prelude::*;

use crate::status_bar::DisplayMode;

verus! {

/// A hexadecimal digit, in either case.
pub open spec fn is_hex_digit(c: char) -> bool {
    ||| (48 <= c as int && c as int <= 57)
    ||| (97 <= c as int && c as int <= 102)
    ||| (65 <= c as int && c as int <= 70)
}

/// The value of a hexadecimal digit.
pub open spec fn hex_digit_val(c: char) -> int {
    if 48 <= c as int && c as int <= 57 {
        c as int - 48
    } else if 97 <= c as int && c as int <= 102 {
        c as int - 87
    } else {
        c as int - 55
    }
}

/// The byte spelled by two hexadecimal digits.
pub open spec fn hex_byte(hi: char, lo: char) -> int {
    hex_digit_val(hi) * 16 + hex_digit_val(lo)
}

/// Read a `#rrggbbaa` colour: a `#` followed by eight hexadecimal
/// digits, two per channel. Anything else is rejected.
pub fn parse_hex_color(hex: &str) -> (r: Option<(u8, u8, u8, u8)>)
    ensures
        r is Some <==> hex@.len() == 9 && hex@[0] == '#' && (forall|i: int|
            1 <= i < 9 ==> is_hex_digit(#[trigger] hex@[i])),
        r matches Some(c) ==> c.0 == hex_byte(hex@[1], hex@[2]) && c.1 == hex_byte(
            hex@[3],
            hex@[4],
        ) && c.2 == hex_byte(hex@[5], hex@[6]) && c.3 == hex_byte(hex@[7], hex@[8]),
{
    if hex.unicode_len() != 9 {
        return None;
    }
    if hex.get_char(0) != '#' {
        return None;
    }
    let mut bytes: [u8; 4] = [0, 0, 0, 0];
    let mut ch: usize = 0;
    while ch < 4
        invariant
            hex@.len() == 9,
            hex@[0] == '#',
            ch <= 4,
            forall|i: int| 1 <= i < 2 * ch + 1 ==> is_hex_digit(#[trigger] hex@[i]),
            forall|t: int|
                0 <= t < ch ==> bytes@[t] == hex_byte(hex@[2 * t + 1], hex@[2 * t + 2]),
        decreases 4 - ch,
    {
        let hi = match hex_val(hex.get_char(2 * ch + 1)) {
            Some(v) => v,
            Option::None => {
                return None;
            },
        };
        let lo = match hex_val(hex.get_char(2 * ch + 2)) {
            Some(v) => v,
            Option::None => {
                return None;
            },
        };
        bytes[ch] = hi * 16 + lo;
        ch = ch + 1;
    }
    Some((bytes[0], bytes[1], bytes[2], bytes[3]))
}

/// The value of one hexadecimal digit character, if it is one.
fn hex_val(c: char) -> (r: Option<u8>)
    ensures
        r is Some <==> is_hex_digit(c),
        r matches Some(v) ==> v == hex_digit_val(c) && v < 16,
{
    let code = c as u32;
    if 48 <= code && code <= 57 {
        Some((code - 48) as u8)
    } else if 97 <= code && code <= 102 {
        Some((code - 87) as u8)
    } else if 65 <= code && code <= 70 {
        Some((code - 55) as u8)
    } else {
        None
    }
}

/// The status-bar item that overrides one colour role; turning the
/// parsed channels into the renderer's colour value happens outside the
/// library.
pub struct ColourOverwrite;

impl Default for ColourOverwrite {
    fn default() -> (r: Self) {
        ColourOverwrite
    }
}

impl ColourOverwrite {
    pub fn name(&self) -> (r: String)
        ensures
            r@ == "ColourOverwrite"@,
    {
        "ColourOverwrite".to_owned()
    }

    pub fn display_mode(&self) -> (r: DisplayMode)
        ensures
            r is Hidden,
    {
        DisplayMode::Hidden
    }
}

} // verus!
