//! Abstract colours, as the toolkit describes them before a terminal is chosen.
use vstd::prelude::*;

verus! {

/// One of the eight base hues of a terminal palette.
#[derive(Clone, Copy, Debug, PartialEq, Eq, Hash, Structural)]
pub enum BaseColor {
    Black,
    Red,
    Green,
    Yellow,
    Blue,
    Magenta,
    Cyan,
    White,
}

/// A colour in the toolkit's abstract model.
#[derive(Clone, Copy, Debug, PartialEq, Eq, Hash, Structural)]
pub enum Color {
    /// Whatever colour the terminal uses by default.
    TerminalDefault,
    /// The dark variant of a base hue.
    Dark(BaseColor),
    /// The light variant of a base hue.
    Light(BaseColor),
    /// A true colour, each channel in `0..=255`.
    Rgb(u8, u8, u8),
    /// A colour of the 6x6x6 cube, each channel in `0..=5`.
    RgbLowRes(u8, u8, u8),
}

impl BaseColor {
    /// Position of the hue in the conventional terminal ordering.
    pub open spec fn spec_ordinal(self) -> int {
        match self {
            BaseColor::Black => 0,
            BaseColor::Red => 1,
            BaseColor::Green => 2,
            BaseColor::Yellow => 3,
            BaseColor::Blue => 4,
            BaseColor::Magenta => 5,
            BaseColor::Cyan => 6,
            BaseColor::White => 7,
        }
    }
}

impl Color {
    /// A low-resolution colour must stay inside the 6x6x6 cube.
    pub open spec fn wf(self) -> bool {
        match self {
            Color::RgbLowRes(r, g, b) => r <= 5 && g <= 5 && b <= 5,
            _ => true,
        }
    }
}

} // verus!
