//! Appearance attached to a piece of text: colours and modifiers.

use vstd::prelude::*;

verus! {

/// A terminal colour.
#[derive(Debug, Clone, Copy, PartialEq, Eq, Structural)]
pub enum Color {
    Reset,
    Black,
    Red,
    Green,
    Yellow,
    Blue,
    Magenta,
    Cyan,
    Gray,
    DarkGray,
    LightRed,
    LightGreen,
    LightYellow,
    LightBlue,
    LightMagenta,
    LightCyan,
    White,
    Rgb(u8, u8, u8),
    Indexed(u8),
}

/// Foreground and background colours, and a set of modifier bits
/// (bold, italic, ...).
#[derive(Debug, Clone, Copy, PartialEq, Eq, Structural)]
pub struct Style {
    pub fg: Color,
    pub bg: Color,
    pub modifier: u16,
}

impl Style {
    /// The style that changes nothing: both colours reset, no modifier.
    pub open spec fn neutral() -> Style {
        Style { fg: Color::Reset, bg: Color::Reset, modifier: 0 }
    }

    /// This style with `color` as its foreground.
    pub fn fg(self, color: Color) -> (r: Style)
        ensures
            r == (Style { fg: color, ..self }),
    {
        Style { fg: color, ..self }
    }

    /// This style with `color` as its background.
    pub fn bg(self, color: Color) -> (r: Style)
        ensures
            r == (Style { bg: color, ..self }),
    {
        Style { bg: color, ..self }
    }

    /// This style with `modifier` as its modifier bits.
    pub fn modifier(self, modifier: u16) -> (r: Style)
        ensures
            r == (Style { modifier, ..self }),
    {
        Style { modifier, ..self }
    }
}

impl Default for Style {
    fn default() -> (r: Style)
        ensures
            r == Style::neutral(),
    {
        Style { fg: Color::Reset, bg: Color::Reset, modifier: 0 }
    }
}

} // verus!
