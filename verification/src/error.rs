//! The errors that the library reports.

use vstd::prelude::*;

verus! {

/// Why a request was turned down.
#[derive(Clone, Copy, Debug, PartialEq, Eq, Structural)]
pub enum Error {
    /// A source of draws could not be asked.
    BadRequest,
    /// A source of draws answered with something that is no draw, or with a
    /// draw outside the range it was asked for.
    BadResponse,
    /// A throw is none of 6, 7, 8 and 9, or a reading does not have six throws.
    InvalidReading,
    /// The number of a hexagram is not between 1 and 64.
    InvalidHexagram(usize),
    /// The number of the hexagram a search starts from is not between 1 and 64.
    InvalidStart(usize),
    /// The number of the hexagram a search ends at is not between 1 and 64.
    InvalidEnd(usize),
}

} // verus!
