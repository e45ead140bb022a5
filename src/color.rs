//! Terminal colours, as plain values.
use vstd::prelude::*;

verus! {

/// A foreground colour of a character terminal: one of the sixteen named
/// colours, an entry of the 256-colour palette, an RGB triple, or the
/// terminal's default.
#[derive(Clone, Copy, Debug, PartialEq, Eq, Structural)]
pub enum Color {
    Reset,
    Black,
    DarkGrey,
    Red,
    DarkRed,
    Green,
    DarkGreen,
    Yellow,
    DarkYellow,
    Blue,
    DarkBlue,
    Magenta,
    DarkMagenta,
    Cyan,
    DarkCyan,
    White,
    Grey,
    Rgb { r: u8, g: u8, b: u8 },
    AnsiValue(u8),
}

/// Construction of colours from their red, green and blue channels.
pub trait ColorExt: Sized {
    fn rgb(r: u8, g: u8, b: u8) -> (c: Color)
        ensures
            c == (Color::Rgb { r, g, b }),
    ;
}

impl ColorExt for Color {
    fn rgb(r: u8, g: u8, b: u8) -> (c: Color) {
        Color::Rgb { r, g, b }
    }
}

} // verus!
