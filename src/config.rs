//! Colours and label style.

use vstd::prelude::*;

verus! {

/// RGB color.
#[derive(Copy, Clone, Hash, PartialEq, Eq, Structural, Debug)]
pub struct Color {
    pub r: u8,
    pub g: u8,
    pub b: u8,
}

impl Color {
    pub fn new(r: u8, g: u8, b: u8) -> (c: Self)
        ensures
            c.r == r,
            c.g == g,
            c.b == b,
    {
        Self { r, g, b }
    }
}

/// Color configuration.
#[derive(Copy, Clone, Hash, PartialEq, Eq, Structural, Debug)]
pub struct Colors {
    /// Primary foreground color.
    pub foreground: Color,
    /// Primary background color.
    pub background: Color,
}

impl Default for Colors {
    /// White on dark grey.
    fn default() -> (c: Self)
        ensures
            c.foreground == (Color { r: 255, g: 255, b: 255 }),
            c.background == (Color { r: 24, g: 24, b: 24 }),
    {
        Self { foreground: Color::new(255, 255, 255), background: Color::new(24, 24, 24) }
    }
}

/// How entry labels are drawn; a change redraws every entry.
pub struct TextStyle {
    pub family: Vec<u8>,
    /// Font size in hundredths of a point.
    pub size: u32,
    pub foreground: Color,
    pub background: Color,
}

/// Why a colour string was refused.
#[derive(Clone, Copy, Debug, PartialEq, Eq, Structural)]
pub enum ColorError {
    /// It does not start with `#`.
    MissingHash,
    /// It has this many characters after the `#`, not 6.
    WrongLength(usize),
    /// The six characters are not a hexadecimal number.
    NonHex,
}

/// Value of a hexadecimal digit of either case.
pub open spec fn hex_digit_value(b: u8) -> Option<int> {
    if 48 <= b <= 57 {
        Some(b - 48)
    } else if 97 <= b <= 102 {
        Some(b - 87)
    } else if 65 <= b <= 70 {
        Some(b - 55)
    } else {
        None
    }
}

pub open spec fn is_hex(b: u8) -> bool {
    hex_digit_value(b).is_some()
}

pub open spec fn hv(b: u8) -> int {
    hex_digit_value(b).unwrap()
}

/// Value of the six characters after `#`, as `u32::from_str_radix` reads
/// them in base 16: six digits, or `+` and five digits.
pub open spec fn channels_value(c: Seq<u8>) -> Option<int> {
    if c[0] == 43 && is_hex(c[1]) && is_hex(c[2]) && is_hex(c[3]) && is_hex(c[4]) && is_hex(c[5]) {
        Some(hv(c[1]) * 65536 + hv(c[2]) * 4096 + hv(c[3]) * 256 + hv(c[4]) * 16 + hv(c[5]))
    } else if is_hex(c[0]) && is_hex(c[1]) && is_hex(c[2]) && is_hex(c[3]) && is_hex(c[4]) && is_hex(c[5]) {
        Some(hv(c[0]) * 1048576 + hv(c[1]) * 65536 + hv(c[2]) * 4096 + hv(c[3]) * 256 + hv(c[4]) * 16 + hv(c[5]))
    } else {
        None
    }
}

/// A colour written `#rrggbb`.
pub open spec fn parse_color_spec(s: Seq<u8>) -> Result<Color, ColorError> {
    if s.len() == 0 || s[0] != 35 {
        Err(ColorError::MissingHash)
    } else if s.len() != 7 {
        Err(ColorError::WrongLength((s.len() - 1) as usize))
    } else {
        match channels_value(s.subrange(1, 7)) {
            Some(v) => Ok(Color { r: (v / 65536) as u8, g: (v / 256 % 256) as u8, b: (v % 256) as u8 }),
            None => Err(ColorError::NonHex),
        }
    }
}

/// Lower-case hexadecimal digit of `n`, below 16.
pub open spec fn hex_char(n: int) -> u8 {
    if n < 10 {
        (48 + n) as u8
    } else {
        (87 + n) as u8
    }
}

/// `#rrggbb` in lower case.
pub open spec fn color_hex_spec(c: Color) -> Seq<u8> {
    seq![
        35u8,
        hex_char(c.r as int / 16),
        hex_char(c.r as int % 16),
        hex_char(c.g as int / 16),
        hex_char(c.g as int % 16),
        hex_char(c.b as int / 16),
        hex_char(c.b as int % 16),
    ]
}

fn hex_digit(b: u8) -> (r: Option<u32>)
    ensures
        match r {
            Some(v) => hex_digit_value(b) == Some(v as int),
            None => hex_digit_value(b).is_none(),
        },
        r.is_some() ==> r.unwrap() < 16,
{
    if 48 <= b && b <= 57 {
        Some((b - 48) as u32)
    } else if 97 <= b && b <= 102 {
        Some((b - 87) as u32)
    } else if 65 <= b && b <= 70 {
        Some((b - 55) as u32)
    } else {
        None
    }
}

fn hex_char_exec(n: u8) -> (r: u8)
    requires
        n < 16,
    ensures
        r == hex_char(n as int),
{
    if n < 10 {
        48 + n
    } else {
        87 + n
    }
}

/// Read a colour written `#rrggbb`.
pub fn parse_color(s: &[u8]) -> (r: Result<Color, ColorError>)
    ensures
        r == parse_color_spec(s@),
{
    if s.len() == 0 || s[0] != 35 {
        return Err(ColorError::MissingHash);
    }
    if s.len() != 7 {
        return Err(ColorError::WrongLength(s.len() - 1));
    }
    let ghost c = s@.subrange(1, 7);
    assert(c[0] == s@[1] && c[1] == s@[2] && c[2] == s@[3] && c[3] == s@[4] && c[4] == s@[5] && c[5] == s@[6]);
    let d1 = hex_digit(s[2]);
    let d2 = hex_digit(s[3]);
    let d3 = hex_digit(s[4]);
    let d4 = hex_digit(s[5]);
    let d5 = hex_digit(s[6]);
    let (v1, v2, v3, v4, v5) = match (d1, d2, d3, d4, d5) {
        (Some(v1), Some(v2), Some(v3), Some(v4), Some(v5)) => (v1, v2, v3, v4, v5),
        _ => return Err(ColorError::NonHex),
    };
    let low: u32 = v1 * 65536 + v2 * 4096 + v3 * 256 + v4 * 16 + v5;
    let v: u32 = if s[1] == 43 {
        low
    } else {
        match hex_digit(s[1]) {
            Some(v0) => v0 * 1048576 + low,
            None => return Err(ColorError::NonHex),
        }
    };
    assert(v < 0x100_0000);
    Ok(Color::new((v / 65536) as u8, (v / 256 % 256) as u8, (v % 256) as u8))
}

impl Color {
    /// `#rrggbb` in lower case.
    pub fn to_hex(&self) -> (r: Vec<u8>)
        ensures
            r@ == color_hex_spec(*self),
    {
        let mut r: Vec<u8> = Vec::new();
        r.push(35);
        r.push(hex_char_exec(self.r / 16));
        r.push(hex_char_exec(self.r % 16));
        r.push(hex_char_exec(self.g / 16));
        r.push(hex_char_exec(self.g % 16));
        r.push(hex_char_exec(self.b / 16));
        r.push(hex_char_exec(self.b % 16));
        assert(r@ =~= color_hex_spec(*self));
        r
    }
}

proof fn lemma_hex_char_value(n: int)
    requires
        0 <= n < 16,
    ensures
        hex_digit_value(hex_char(n)) == Some(n),
        hex_char(n) != 43,
{
}

/// A colour written by `to_hex` reads back as the same colour.
pub proof fn lemma_color_hex_round_trip(c: Color)
    ensures
        parse_color_spec(color_hex_spec(c)) == Ok::<Color, ColorError>(c),
{
    let s = color_hex_spec(c);
    let r = c.r as int;
    let g = c.g as int;
    let b = c.b as int;
    lemma_hex_char_value(r / 16);
    lemma_hex_char_value(r % 16);
    lemma_hex_char_value(g / 16);
    lemma_hex_char_value(g % 16);
    lemma_hex_char_value(b / 16);
    lemma_hex_char_value(b % 16);
    let ch = s.subrange(1, 7);
    assert(ch[0] == hex_char(r / 16));
    assert(ch[5] == hex_char(b % 16));
    let v = (r / 16) * 1048576 + (r % 16) * 65536 + (g / 16) * 4096 + (g % 16) * 256 + (b / 16) * 16 + (b % 16);
    assert(channels_value(ch) == Some(v));
    assert(v == r * 65536 + g * 256 + b) by (nonlinear_arith)
        requires
            v == (r / 16) * 1048576 + (r % 16) * 65536 + (g / 16) * 4096 + (g % 16) * 256 + (b / 16) * 16 + (b % 16),
            0 <= r < 256,
            0 <= g < 256,
            0 <= b < 256,
    ;
    assert(v / 65536 == r && v / 256 % 256 == g && v % 256 == b) by (nonlinear_arith)
        requires
            v == r * 65536 + g * 256 + b,
            0 <= r < 256,
            0 <= g < 256,
            0 <= b < 256,
    ;
}

} // verus!
