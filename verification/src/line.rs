//! A single line of a trigram or hexagram.

use vstd::prelude::*;

verus! {

/// The type of line in a hexagram.
#[derive(Copy, Clone, Debug, PartialEq, Eq, Hash, Structural)]
pub enum Line {
    /// An open line, representing yin energy.
    Open,
    /// A closed line, representing yang energy.
    Closed,
}

impl Line {
    /// The opposite line.
    pub open spec fn flipped(self) -> Line {
        match self {
            Line::Open => Line::Closed,
            Line::Closed => Line::Open,
        }
    }

    /// The line that a table entry stands for: zero is open, anything else closed.
    pub open spec fn of(n: u8) -> Line {
        if n == 0 {
            Line::Open
        } else {
            Line::Closed
        }
    }

    /// One for a closed line, zero for an open one.
    pub open spec fn bit(self) -> int {
        match self {
            Line::Open => 0,
            Line::Closed => 1,
        }
    }

    /// One where the two lines differ, zero where they agree.
    pub open spec fn differs(self, other: Line) -> int {
        if self == other {
            0
        } else {
            1
        }
    }

    /// Inverses the line to the opposite value.
    pub fn inverse(&self) -> (r: Line)
        ensures
            r == self.flipped(),
    {
        match self {
            Line::Open => Line::Closed,
            Line::Closed => Line::Open,
        }
    }
}

impl From<u8> for Line {
    fn from(n: u8) -> (r: Line) {
        match n {
            0 => Line::Open,
            _ => Line::Closed,
        }
    }
}

impl vstd::std_specs::convert::FromSpecImpl<u8> for Line {
    open spec fn obeys_from_spec() -> bool {
        true
    }

    open spec fn from_spec(n: u8) -> Line {
        Line::of(n)
    }
}

} // verus!
