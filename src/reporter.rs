use vstd::prelude::*;

verus! {

/// The colors of a terminal.
#[derive(Clone, Copy, Debug, PartialEq, Eq, Structural)]
pub enum Color {
    Black,
    Red,
    Green,
    Yellow,
    Blue,
    Magenta,
    Cyan,
    White,
    BrightBlack,
    BrightRed,
    BrightGreen,
    BrightYellow,
    BrightBlue,
    BrightMagenta,
    BrightCyan,
    BrightWhite,
}

/// The ANSI code that sets `c` as the foreground color.
pub open spec fn fg(c: Color) -> u8 {
    match c {
        Color::Black => 30,
        Color::Red => 31,
        Color::Green => 32,
        Color::Yellow => 33,
        Color::Blue => 34,
        Color::Magenta => 35,
        Color::Cyan => 36,
        Color::White => 37,
        Color::BrightBlack => 90,
        Color::BrightRed => 91,
        Color::BrightGreen => 92,
        Color::BrightYellow => 93,
        Color::BrightBlue => 94,
        Color::BrightMagenta => 95,
        Color::BrightCyan => 96,
        Color::BrightWhite => 97,
    }
}

impl Color {
    pub fn fg_code(self) -> (r: u8)
        ensures
            r == fg(self),
    {
        match self {
            Color::Black => 30,
            Color::Red => 31,
            Color::Green => 32,
            Color::Yellow => 33,
            Color::Blue => 34,
            Color::Magenta => 35,
            Color::Cyan => 36,
            Color::White => 37,
            Color::BrightBlack => 90,
            Color::BrightRed => 91,
            Color::BrightGreen => 92,
            Color::BrightYellow => 93,
            Color::BrightBlue => 94,
            Color::BrightMagenta => 95,
            Color::BrightCyan => 96,
            Color::BrightWhite => 97,
        }
    }

    /// The ANSI code that sets this color as the background: ten above the foreground code.
    pub fn bg_code(self) -> (r: u8)
        ensures
            r == fg(self) + 10,
    {
        self.fg_code() + 10
    }
}

/// Prints the offenses of a run; with `no_color`, without ANSI colors.
pub struct Reporter {
    pub no_color: bool,
}

impl Reporter {
    pub fn new(no_color: bool) -> (r: Reporter)
        ensures
            r.no_color == no_color,
    {
        Reporter { no_color }
    }
}

} // verus!
