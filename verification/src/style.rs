//! Cell styles: colours and modifiers, as protocol attributes map onto
//! them.

use vstd::prelude::*;

use crate::protocol::{Attribute, Underline};

verus! {

/// A terminal colour.
#[derive(Debug, Clone, Copy, PartialEq, Eq, Structural)]
pub enum Color {
    Rgb(u8, u8, u8),
}

/// Text modifiers, as bit flags.
#[derive(Debug, Clone, Copy, PartialEq, Eq, Structural)]
pub struct Modifier {
    pub bits: u16,
}

impl Modifier {
    pub const BOLD: u16 = 0b0000_0000_0001;
    pub const DIM: u16 = 0b0000_0000_0010;
    pub const ITALIC: u16 = 0b0000_0000_0100;
    pub const UNDERLINED: u16 = 0b0000_0000_1000;
    pub const SLOW_BLINK: u16 = 0b0000_0001_0000;
    pub const RAPID_BLINK: u16 = 0b0000_0010_0000;
    pub const REVERSED: u16 = 0b0000_0100_0000;
    pub const HIDDEN: u16 = 0b0000_1000_0000;
    pub const CROSSED_OUT: u16 = 0b0001_0000_0000;

    pub open spec fn has(&self, flag: u16) -> bool {
        self.bits & flag == flag
    }

    /// Whether every flag in `flag` is set.
    pub fn contains(&self, flag: u16) -> (r: bool)
        ensures
            r == self.has(flag),
    {
        self.bits & flag == flag
    }
}

/// How a cell is styled. An absent colour leaves the cell's own, so the
/// terminal's default shows through; the modifiers are added to the
/// cell's.
#[derive(Debug, Clone, Copy, PartialEq, Eq, Structural)]
pub struct Style {
    pub fg: Option<Color>,
    pub bg: Option<Color>,
    pub underline_color: Option<Color>,
    pub add_modifier: Modifier,
}

impl Style {
    /// No colours and no modifiers.
    pub open spec fn plain() -> Style {
        Style { fg: None, bg: None, underline_color: None, add_modifier: Modifier { bits: 0 } }
    }
}

impl Default for Style {
    fn default() -> (r: Self)
        ensures
            r == Style::plain(),
    {
        Style { fg: None, bg: None, underline_color: None, add_modifier: Modifier { bits: 0 } }
    }
}

/// The value of a hexadecimal digit.
pub open spec fn hex_value(b: u8) -> Option<u8> {
    if 48 <= b <= 57 {
        Some((b - 48) as u8)
    } else if 65 <= b <= 70 {
        Some((b - 55) as u8)
    } else if 97 <= b <= 102 {
        Some((b - 87) as u8)
    } else {
        None
    }
}

/// A two-byte colour component: exactly two hexadecimal digits, read in
/// base 16.
pub open spec fn component(a: u8, b: u8) -> Option<u8> {
    match (hex_value(a), hex_value(b)) {
        (Some(x), Some(y)) => Some((x * 16 + y) as u8),
        _ => None,
    }
}

/// The colour a wire string names: `#` and six hexadecimal digits, read
/// as three two-digit components; nothing for anything else, including
/// the nulls the wire sends for "no colour set".
pub open spec fn color_named(bytes: Seq<u8>) -> Option<Color> {
    if bytes.len() != 7 || bytes[0] != 35 {
        None
    } else {
        match (
            component(bytes[1], bytes[2]),
            component(bytes[3], bytes[4]),
            component(bytes[5], bytes[6]),
        ) {
            (Some(r), Some(g), Some(b)) => Some(Color::Rgb(r, g, b)),
            _ => None,
        }
    }
}

fn hex_digit(b: u8) -> (r: Option<u8>)
    ensures
        r == hex_value(b),
{
    if b >= 48 && b <= 57 {
        Some(b - 48)
    } else if b >= 65 && b <= 70 {
        Some(b - 55)
    } else if b >= 97 && b <= 102 {
        Some(b - 87)
    } else {
        None
    }
}

fn parse_component(a: u8, b: u8) -> (r: Option<u8>)
    ensures
        r == component(a, b),
{
    match (hex_digit(a), hex_digit(b)) {
        (Some(x), Some(y)) => Some(x * 16 + y),
        _ => None,
    }
}

/// Parse a `"#RRGGBB"` wire colour; `None` for anything else.
pub fn parse_color(raw: &str) -> (r: Option<Color>)
    ensures
        r == color_named(vstd::utf8::encode_utf8(raw@)),
        r is Some <==> {
            let bytes = vstd::utf8::encode_utf8(raw@);
            &&& bytes.len() == 7
            &&& bytes[0] == 35
            &&& forall|i: int| 1 <= i < 7 ==> (#[trigger] hex_value(bytes[i])) is Some
        },
{
    let bytes = raw.as_bytes();
    if bytes.len() != 7 || bytes[0] != 35 {
        return None;
    }
    assert(color_named(bytes@) is Some <==> hex_value(bytes@[1]) is Some && hex_value(bytes@[2]) is Some
        && hex_value(bytes@[3]) is Some && hex_value(bytes@[4]) is Some && hex_value(bytes@[5]) is Some
        && hex_value(bytes@[6]) is Some);
    match (
        parse_component(bytes[1], bytes[2]),
        parse_component(bytes[3], bytes[4]),
        parse_component(bytes[5], bytes[6]),
    ) {
        (Some(r), Some(g), Some(b)) => Some(Color::Rgb(r, g, b)),
        _ => None,
    }
}

pub open spec fn optional_color(s: Option<String>) -> Option<Color> {
    match s {
        Some(s) => color_named(vstd::utf8::encode_utf8(s@)),
        None => None,
    }
}

/// The style a protocol attribute maps to: its parsable colours, bold and
/// reverse as modifiers, and an underline either plain or coloured.
pub open spec fn style_for(a: Attribute) -> Style {
    let bold: u16 = if a.bold {
        Modifier::BOLD
    } else {
        0
    };
    let reversed: u16 = if a.reverse {
        Modifier::REVERSED
    } else {
        0
    };
    let underlined: u16 = match a.underline {
        Some(Underline::On(true)) => Modifier::UNDERLINED,
        Some(Underline::Color(_)) => Modifier::UNDERLINED,
        _ => 0,
    };
    Style {
        fg: optional_color(a.foreground),
        bg: optional_color(a.background),
        underline_color: match a.underline {
            Some(Underline::Color(s)) => color_named(vstd::utf8::encode_utf8(s@)),
            _ => None,
        },
        add_modifier: Modifier { bits: (bold | reversed | underlined) as u16 },
    }
}

fn color_of(s: &Option<String>) -> (r: Option<Color>)
    ensures
        r == optional_color(*s),
{
    match s {
        Some(t) => parse_color(t.as_str()),
        None => None,
    }
}

/// Map a protocol attribute onto a cell style.
pub fn style_of(attribute: &Attribute) -> (r: Style)
    ensures
        r == style_for(*attribute),
{
    let fg = color_of(&attribute.foreground);
    let bg = color_of(&attribute.background);
    let bold: u16 = if attribute.bold {
        Modifier::BOLD
    } else {
        0
    };
    let reversed: u16 = if attribute.reverse {
        Modifier::REVERSED
    } else {
        0
    };
    let (underlined, underline_color): (u16, Option<Color>) = match &attribute.underline {
        Some(Underline::On(true)) => (Modifier::UNDERLINED, None),
        Some(Underline::Color(raw)) => (Modifier::UNDERLINED, parse_color(raw.as_str())),
        _ => (0, None),
    };
    Style {
        fg,
        bg,
        underline_color,
        add_modifier: Modifier { bits: bold | reversed | underlined },
    }
}

/// A style's modifiers are exactly what the attribute asks for: bold for
/// `bold`, reverse video for `reverse`, underline for an underline that is
/// on or coloured, and no other flag. Colours are set only where the
/// attribute names one, and an underline colour only for a coloured
/// underline.
pub proof fn lemma_style_follows_attribute(a: Attribute)
    ensures
        style_for(a).add_modifier.has(Modifier::BOLD) <==> a.bold,
        style_for(a).add_modifier.has(Modifier::REVERSED) <==> a.reverse,
        style_for(a).add_modifier.has(Modifier::UNDERLINED) <==> (a.underline == Some(
            Underline::On(true),
        ) || a.underline matches Some(Underline::Color(_))),
        style_for(a).add_modifier.bits & !(Modifier::BOLD | Modifier::REVERSED
            | Modifier::UNDERLINED) == 0,
        style_for(a).fg is Some ==> a.foreground is Some,
        style_for(a).bg is Some ==> a.background is Some,
        style_for(a).underline_color is Some ==> a.underline matches Some(Underline::Color(_)),
{
    let x: u16 = if a.bold {
        1
    } else {
        0
    };
    let y: u16 = if a.reverse {
        64
    } else {
        0
    };
    let z: u16 = match a.underline {
        Some(Underline::On(true)) => 8,
        Some(Underline::Color(_)) => 8,
        _ => 0,
    };
    assert(style_for(a).add_modifier.bits == x | y | z);
    assert(((x | y | z) & 1 == 1 <==> x == 1) && ((x | y | z) & 64 == 64 <==> y == 64) && ((x | y
        | z) & 8 == 8 <==> z == 8) && (x | y | z) & !(1u16 | 64u16 | 8u16) == 0) by (bit_vector)
        requires
            x == 0 || x == 1,
            y == 0 || y == 64,
            z == 0 || z == 8,
    ;
}

/// A colour's components are its three digit pairs read in base 16, the
/// first digit of each the high one, with digits `0`-`9`, `A`-`F` and
/// `a`-`f` worth 0 to 15.
pub proof fn lemma_color_reads_the_digit_pairs(bytes: Seq<u8>)
    ensures
        forall|r: u8, g: u8, b: u8|
            color_named(bytes) == Some(Color::Rgb(r, g, b)) ==> {
                &&& bytes.len() == 7 && bytes[0] == 35
                &&& r == digit_worth(bytes[1]) * 16 + digit_worth(bytes[2])
                &&& g == digit_worth(bytes[3]) * 16 + digit_worth(bytes[4])
                &&& b == digit_worth(bytes[5]) * 16 + digit_worth(bytes[6])
            },
{
}

/// What a hexadecimal digit is worth, counted from `0`, `A` or `a`.
pub open spec fn digit_worth(c: u8) -> int {
    if 48 <= c <= 57 {
        c - 48
    } else if 65 <= c <= 70 {
        c - 65 + 10
    } else {
        c - 97 + 10
    }
}

} // verus!
