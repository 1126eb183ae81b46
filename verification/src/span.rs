use vstd::prelude::*;

verus! {

/// A source position: one-based line and column of the first character of a token.
#[derive(Debug, Clone, Copy, PartialEq, Eq, Structural)]
pub struct Span {
    pub line: usize,
    pub column: usize,
}

impl Span {
    pub fn new(line: usize, column: usize) -> (s: Span)
        ensures
            s.line == line,
            s.column == column,
    {
        Span { line, column }
    }

    /// The position used for diagnostics that are not tied to a source location.
    pub fn unknown() -> (s: Span)
        ensures
            s.line == 0,
            s.column == 0,
    {
        Span { line: 0, column: 0 }
    }
}

impl Default for Span {
    fn default() -> (s: Span)
        ensures
            s.line == 0,
            s.column == 0,
    {
        Span { line: 0, column: 0 }
    }
}

} // verus!
