use vstd::prelude::*;

verus! {

/// A terminal colour: one of the named terminal colours, an explicit RGB
/// triple, or an index into the 256-colour ANSI table.
#[derive(Clone, Copy, Debug, PartialEq, Eq, Structural)]
pub enum Color {
    /// Resets the terminal colour.
    Reset,
    Black,
    DarkGrey,
    Red,
    DarkRed,
    Green,
    DarkGreen,
    Yellow,
    DarkYellow,
    Blue,
    DarkBlue,
    Magenta,
    DarkMagenta,
    Cyan,
    DarkCyan,
    White,
    Grey,
    /// An explicit RGB colour.
    Rgb { r: u8, g: u8, b: u8 },
    /// A colour of the 256-colour ANSI table.
    AnsiValue(u8),
}

/// A piece of text painted in one colour.
#[derive(Debug)]
pub struct Styled {
    pub text: String,
    pub color: Color,
}

} // verus!
