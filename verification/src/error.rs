use vstd::prelude::*;

verus! {

/// Why a request for geometry was turned down.
#[derive(Debug, Clone, Copy, PartialEq, Eq, Structural)]
pub enum GeometryError {
    /// The section code is not four ASCII digits.
    InvalidSpecification,
    /// The coordinate text breaks the expected layout on the given line
    /// (counted from 1; the name line is line 1).
    ParseError { line: usize },
    /// The boundary and the requested panels do not fit together.
    DegenerateGeometry,
}

impl GeometryError {
    /// The line of the text that a `ParseError` points at, 0 for the other kinds.
    pub open spec fn line_of(&self) -> usize {
        match *self {
            GeometryError::ParseError { line } => line,
            _ => 0usize,
        }
    }

    /// The line of the text that a `ParseError` points at, 0 for the other kinds.
    pub fn line(&self) -> (n: usize)
        ensures
            n == self.line_of(),
    {
        match self {
            GeometryError::ParseError { line } => *line,
            _ => 0,
        }
    }
}

} // verus!
