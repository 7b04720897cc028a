//! The analysis of a single hexagram: its trigrams, its nuclear trigrams and
//! the hexagrams that one operation makes of it.

use crate::error::Error;
use crate::hexagram::Hexagram;
use crate::operation::SearchOperation;
use crate::trigram::Trigram;
use vstd::prelude::*;

verus! {

/// The hexagrams other than `h` that the first `n` operations of the
/// catalogue make of `h`, each with its operation, in the order of the
/// catalogue.
pub open spec fn reachable(h: Hexagram, n: int) -> Seq<(Hexagram, SearchOperation)>
    decreases n,
{
    if n <= 0 {
        Seq::empty()
    } else {
        let rest = reachable(h, n - 1);
        let op = SearchOperation::catalogue()[n - 1];
        if op.applied(h).number != h.number {
            rest.push((op.applied(h), op))
        } else {
            rest
        }
    }
}

/// The result of analyzing a hexagram.
pub struct HexagramAnalysis {
    /// The hexagram to analyze.
    pub hexagram: Hexagram,
    /// The bottom trigram of the hexagram.
    pub bottom_trigram: Trigram,
    /// The top trigram of the hexagram.
    pub top_trigram: Trigram,
    /// The bottom nuclear trigram of the hexagram, that is, the trigram formed by the second,
    /// third, and fourth lines.
    pub bottom_nuclear_trigram: Trigram,
    /// The top nuclear trigram of the hexagram, that is, the trigram formed by the third, fourth,
    /// and fifth lines.
    pub top_nuclear_trigram: Trigram,
    /// The list of hexagrams that can be reached from this hexagram by applying a single operation.
    pub reacheable_hexagrams: Vec<(Hexagram, SearchOperation)>,
}

impl HexagramAnalysis {
    /// The analysis is that of its hexagram, which is one of the list.
    pub open spec fn is_analysis(&self) -> bool {
        &&& self.hexagram.is_catalogued()
        &&& self.bottom_trigram == Trigram::with_lines(self.hexagram.lines@.subrange(0, 3))
        &&& self.top_trigram == Trigram::with_lines(self.hexagram.lines@.subrange(3, 6))
        &&& self.bottom_nuclear_trigram == Trigram::with_lines(
            self.hexagram.lines@.subrange(1, 4),
        )
        &&& self.top_nuclear_trigram == Trigram::with_lines(self.hexagram.lines@.subrange(2, 5))
        &&& self.reacheable_hexagrams@ == reachable(self.hexagram, 17)
    }

    /// Creates a new hexagram analysis.
    pub fn new(number: usize) -> (r: Result<Self, Error>)
        ensures
            match r {
                Ok(analysis) => {
                    &&& 1 <= number <= 64
                    &&& analysis.hexagram == Hexagram::of_number(number as int)
                    &&& analysis.hexagram.number == number
                    &&& analysis.is_analysis()
                },
                Err(e) => !(1 <= number <= 64) && e == Error::InvalidHexagram(number),
            },
    {
        // Validate and create the hexagram
        if number < 1 || number > 64 {
            return Err(Error::InvalidHexagram(number));
        }
        let hexagram = Hexagram::numbered(number);

        // Compute the information about the hexagram.
        let (bottom_trigram, top_trigram) = hexagram.trigrams();
        let (bottom_nuclear_trigram, top_nuclear_trigram) = hexagram.nuclear_trigrams();
        let ops = SearchOperation::all_operations();
        let mut reacheable_hexagrams: Vec<(Hexagram, SearchOperation)> = Vec::new();
        let mut j: usize = 0;
        while j < ops.len()
            invariant
                j <= 17,
                ops@ == SearchOperation::catalogue(),
                reacheable_hexagrams@ == reachable(hexagram, j as int),
            decreases 17 - j,
        {
            let op = ops[j];
            let reacheable = op.apply(&hexagram);
            if reacheable.number != hexagram.number {
                reacheable_hexagrams.push((reacheable, op));
            }
            j += 1;
        }
        Ok(
            Self {
                hexagram,
                bottom_trigram,
                top_trigram,
                bottom_nuclear_trigram,
                top_nuclear_trigram,
                reacheable_hexagrams,
            },
        )
    }
}

} // verus!
