//! Terminal colours and styled characters, as plain values.

use vstd::prelude::*;

verus! {

/// A terminal colour (the same set of colours a terminal back end offers).
#[derive(Clone, Copy, Debug, PartialEq, Eq, Structural)]
pub enum Color {
    Reset,
    Black,
    DarkGrey,
    Red,
    DarkRed,
    Green,
    DarkGreen,
    Yellow,
    DarkYellow,
    Blue,
    DarkBlue,
    Magenta,
    DarkMagenta,
    Cyan,
    DarkCyan,
    White,
    Grey,
    Rgb { r: u8, g: u8, b: u8 },
    AnsiValue(u8),
}

/// A character together with its optional foreground and background colours.
#[derive(Clone, Copy, Debug, PartialEq, Eq, Structural)]
pub struct StyleCh {
    /// The character shown.
    pub content: char,
    /// Colour of the character itself.
    pub fg: Option<Color>,
    /// Colour behind the character.
    pub bg: Option<Color>,
}

impl StyleCh {
    /// A character with no colours set.
    pub fn plain(content: char) -> (s: StyleCh)
        ensures
            s == (StyleCh { content, fg: None, bg: None }),
    {
        StyleCh { content, fg: None, bg: None }
    }

    /// A character drawn in the given colour.
    pub fn with(content: char, clr: Color) -> (s: StyleCh)
        ensures
            s == (StyleCh { content, fg: Some(clr), bg: None }),
    {
        StyleCh { content, fg: Some(clr), bg: None }
    }

    /// The same character and foreground, drawn on the given background colour.
    pub fn on(self, clr: Color) -> (s: StyleCh)
        ensures
            s == (StyleCh { bg: Some(clr), ..self }),
    {
        StyleCh { bg: Some(clr), ..self }
    }
}

} // verus!
