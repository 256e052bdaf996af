//! Plain models of terminal colors and cell styles, and the styled
//! character cell that the matching and rendering logic reads.

use vstd::prelude::*;

verus! {

/// A terminal color: the sixteen named colors, the terminal's reset
/// color, a 24-bit color or an index into the 256-color palette.
#[derive(Clone, Copy, Debug, PartialEq, Eq, Structural)]
pub enum Color {
    Reset,
    Black,
    Red,
    Green,
    Yellow,
    Blue,
    Magenta,
    Cyan,
    Gray,
    DarkGray,
    LightRed,
    LightGreen,
    LightYellow,
    LightBlue,
    LightMagenta,
    LightCyan,
    White,
    Rgb(u8, u8, u8),
    Indexed(u8),
}

/// Text-emphasis bit for bold text.
pub const MODIFIER_BOLD: u16 = 1;

/// Text-emphasis bit for dim text.
pub const MODIFIER_DIM: u16 = 2;

/// A cell style: optional foreground, background and underline colors,
/// and the emphasis bits it adds and removes.
#[derive(Clone, Copy, Debug, PartialEq, Eq, Structural)]
pub struct Style {
    pub fg: Option<Color>,
    pub bg: Option<Color>,
    pub underline_color: Option<Color>,
    pub add_modifier: u16,
    pub sub_modifier: u16,
}

/// The style that changes nothing.
pub open spec fn plain_style() -> Style {
    Style { fg: None, bg: None, underline_color: None, add_modifier: 0, sub_modifier: 0 }
}

impl Style {
    pub fn new() -> (s: Style)
        ensures
            s == plain_style(),
    {
        Style { fg: None, bg: None, underline_color: None, add_modifier: 0, sub_modifier: 0 }
    }

    /// This style with the given foreground color.
    pub fn fg(self, c: Color) -> (s: Style)
        ensures
            s == (Style { fg: Some(c), ..self }),
    {
        Style { fg: Some(c), ..self }
    }

    /// This style with the given background color.
    pub fn bg(self, c: Color) -> (s: Style)
        ensures
            s == (Style { bg: Some(c), ..self }),
    {
        Style { bg: Some(c), ..self }
    }

    /// This style with the given emphasis bits added (and no longer removed).
    pub fn add_modifier(self, m: u16) -> (s: Style)
        ensures
            s == (Style { add_modifier: self.add_modifier | m, sub_modifier: self.sub_modifier & !m, ..self }),
    {
        Style { add_modifier: self.add_modifier | m, sub_modifier: self.sub_modifier & !m, ..self }
    }
}

impl Default for Style {
    fn default() -> (s: Style)
        ensures
            s == plain_style(),
    {
        Style::new()
    }
}

/// One character cell of a captured line: the character and the style it
/// was printed with.
#[derive(Clone, Copy, Debug, PartialEq, Eq, Structural)]
pub struct StyledChar {
    pub ch: char,
    pub style: Style,
}

/// Adding bold to a style with no emphasis gives just bold.
pub proof fn lemma_bold_bits()
    ensures
        (0u16 | MODIFIER_BOLD) == MODIFIER_BOLD,
        (0u16 & !MODIFIER_BOLD) == 0u16,
{
    assert((0u16 | 1u16) == 1u16) by (bit_vector);
    assert((0u16 & !1u16) == 0u16) by (bit_vector);
}

} // verus!
