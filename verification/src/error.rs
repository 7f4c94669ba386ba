//! The errors of the library.

use vstd::prelude::*;

verus! {

/// What kind of text failed to parse.
#[derive(Clone, Copy, Debug, PartialEq, Eq, Structural, Hash)]
pub enum ParseError {
    Style,
    Color,
    LineStyle,
    Direction,
    Alignment,
    Justification,
    Arrow,
}

/// An error of the library. Each is reported to the caller at once, and no
/// partial result comes with it.
#[derive(Clone, Copy, Debug, PartialEq, Eq, Structural, Hash)]
pub enum Error {
    /// A style, colour, line style, direction, alignment, justification or
    /// arrow was not written as it should be.
    Parse(ParseError),
    /// No route leads from the start to the goal.
    NoPath,
    /// A route of fewer than two cells cannot be drawn.
    PathTooShort,
}

impl Error {
    /// What went wrong, in words.
    pub open spec fn text(self) -> Seq<char> {
        match self {
            Error::Parse(ParseError::Style) => "Failed to parse style string"@,
            Error::Parse(ParseError::Color) => "Invalid color"@,
            Error::Parse(ParseError::LineStyle) => "Invalid line style"@,
            Error::Parse(ParseError::Direction) => "Invalid direction"@,
            Error::Parse(ParseError::Alignment) => "Invalid alignment"@,
            Error::Parse(ParseError::Justification) => "Invalid justification"@,
            Error::Parse(ParseError::Arrow) => "Failed to parse arrow string"@,
            Error::NoPath => "no path found"@,
            Error::PathTooShort => "path must have at least two elements"@,
        }
    }

    pub fn message(&self) -> (m: &'static str)
        ensures
            m@ == self.text(),
    {
        match self {
            Error::Parse(ParseError::Style) => "Failed to parse style string",
            Error::Parse(ParseError::Color) => "Invalid color",
            Error::Parse(ParseError::LineStyle) => "Invalid line style",
            Error::Parse(ParseError::Direction) => "Invalid direction",
            Error::Parse(ParseError::Alignment) => "Invalid alignment",
            Error::Parse(ParseError::Justification) => "Invalid justification",
            Error::Parse(ParseError::Arrow) => "Failed to parse arrow string",
            Error::NoPath => "no path found",
            Error::PathTooShort => "path must have at least two elements",
        }
    }
}

} // verus!
