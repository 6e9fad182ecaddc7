use vstd::prelude::*;

verus! {

/// A terminal color: one of the named colors or a 24-bit RGB triple.
#[derive(Clone, Copy, Debug, PartialEq, Eq)]
pub enum Color {
    Reset,
    Black,
    Red,
    Green,
    Yellow,
    Blue,
    Magenta,
    Cyan,
    Gray,
    DarkGray,
    LightRed,
    LightGreen,
    LightYellow,
    LightBlue,
    LightMagenta,
    LightCyan,
    White,
    Rgb(u8, u8, u8),
    Indexed(u8),
}

/// A set of text modifiers, one bit each.
#[derive(Clone, Copy, Debug, PartialEq, Eq)]
pub struct Modifier {
    pub bits: u16,
}

impl Modifier {
    pub const BOLD: u16 = 1;
    pub const DIM: u16 = 2;
    pub const ITALIC: u16 = 4;
    pub const UNDERLINED: u16 = 8;
    pub const SLOW_BLINK: u16 = 16;
    pub const RAPID_BLINK: u16 = 32;
    pub const REVERSED: u16 = 64;
    pub const HIDDEN: u16 = 128;
    pub const CROSSED_OUT: u16 = 256;

    pub fn empty() -> (r: Modifier)
        ensures
            r.bits == 0,
    {
        Modifier { bits: 0 }
    }

    pub fn from_bits(bits: u16) -> (r: Modifier)
        ensures
            r.bits == bits,
    {
        Modifier { bits }
    }
}

/// The style of a text: foreground and background colors, and modifiers to add or remove.
#[derive(Clone, Copy, Debug, PartialEq, Eq)]
pub struct Style {
    pub fg: Option<Color>,
    pub bg: Option<Color>,
    pub underline_color: Option<Color>,
    pub add_modifier: Modifier,
    pub sub_modifier: Modifier,
}

impl Style {
    pub open spec fn spec_new() -> Style {
        Style {
            fg: None,
            bg: None,
            underline_color: None,
            add_modifier: Modifier { bits: 0 },
            sub_modifier: Modifier { bits: 0 },
        }
    }

    /// The style that changes nothing.
    pub fn new() -> (r: Style)
        ensures
            r == Style::spec_new(),
    {
        Style {
            fg: None,
            bg: None,
            underline_color: None,
            add_modifier: Modifier::empty(),
            sub_modifier: Modifier::empty(),
        }
    }

    pub fn fg(self, color: Color) -> (r: Style)
        ensures
            r == (Style { fg: Some(color), ..self }),
    {
        Style { fg: Some(color), ..self }
    }

    pub fn bg(self, color: Color) -> (r: Style)
        ensures
            r == (Style { bg: Some(color), ..self }),
    {
        Style { bg: Some(color), ..self }
    }

    /// Add the modifier bits, and stop removing them.
    pub fn add_modifier(self, m: u16) -> (r: Style)
        ensures
            r == (Style {
                add_modifier: Modifier { bits: self.add_modifier.bits | m },
                sub_modifier: Modifier { bits: self.sub_modifier.bits & !m },
                ..self
            }),
    {
        Style {
            add_modifier: Modifier { bits: self.add_modifier.bits | m },
            sub_modifier: Modifier { bits: self.sub_modifier.bits & !m },
            ..self
        }
    }
}

impl Default for Style {
    fn default() -> (r: Style)
        ensures
            r == Style::spec_new(),
    {
        Style::new()
    }
}

} // verus!
