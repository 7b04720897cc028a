//! A reading of the I Ching: the hexagram that six throws give, the lines of
//! it that change, and the hexagram that it turns into.

use crate::casting::{cast, ReadingMethod};
use crate::error::Error;
use crate::hexagram::Hexagram;
use crate::line::Line;
use std::collections::HashSet;
use vstd::prelude::*;

verus! {

broadcast use vstd::std_specs::hash::group_hash_axioms;

/// The line that a throw gives to the present hexagram: 7 and 9 are closed
/// lines, 6 and 8 open ones.
pub open spec fn present_line(throw: u8) -> Line {
    if throw == 7 || throw == 9 {
        Line::Closed
    } else {
        Line::Open
    }
}

/// The line that a throw gives to the future hexagram: 6 and 9 change, so 6
/// and 7 end as closed lines, 8 and 9 as open ones.
pub open spec fn future_line(throw: u8) -> Line {
    if throw == 6 || throw == 7 {
        Line::Closed
    } else {
        Line::Open
    }
}

/// Whether a throw gives a changing line.
pub open spec fn changes(throw: u8) -> bool {
    throw == 6 || throw == 9
}

/// The throws are six, each of them 6, 7, 8 or 9.
pub open spec fn are_throws(throws: Seq<u8>) -> bool {
    throws.len() == 6 && forall|i: int| 0 <= i < 6 ==> 6 <= #[trigger] throws[i] <= 9
}

/// The lines of the present hexagram, the bottom line first.
pub open spec fn present_lines(throws: Seq<u8>) -> Seq<Line> {
    Seq::new(6, |i: int| present_line(throws[i]))
}

/// The lines of the future hexagram, the bottom line first.
pub open spec fn future_lines(throws: Seq<u8>) -> Seq<Line> {
    Seq::new(6, |i: int| future_line(throws[i]))
}

/// The places of the changing lines, counted from 0 at the bottom.
pub open spec fn changing_places(throws: Seq<u8>) -> Set<usize> {
    Set::new(|i: usize| i < 6 && changes(throws[i as int]))
}

/// A reading of the I Ching.
#[derive(Debug, PartialEq, Eq)]
pub struct Reading {
    /// The question asked of the I Ching.
    pub question: String,
    /// The present hexagram.
    pub present: Hexagram,
    /// The future hexagram, if any.
    pub future: Option<Hexagram>,
    /// The lines that are changing between the present and future hexagrams.
    pub changing_lines: HashSet<usize>,
}

impl Reading {
    /// The reading is what the throws give in answer to the question.
    pub open spec fn is_reading_of(self, throws: Seq<u8>, question: Seq<char>) -> bool {
        &&& self.question@ == question
        &&& self.present == Hexagram::with_lines(present_lines(throws))
        &&& self.future == if changing_places(throws).is_empty() {
            None
        } else {
            Some(Hexagram::with_lines(future_lines(throws)))
        }
        &&& self.changing_lines@ == changing_places(throws)
    }
}

/// Builds the reading that six throws give. A throw of 6 is an open line that
/// changes into a closed one, 7 a closed line, 8 an open line, and 9 a closed
/// line that changes into an open one. Where no line changes, the reading has
/// no future hexagram.
pub fn reading_from_throws(throws: &Vec<u8>, question: &str) -> (r: Result<Reading, Error>)
    ensures
        match r {
            Ok(reading) => are_throws(throws@) && reading.is_reading_of(throws@, question@),
            Err(e) => !are_throws(throws@) && e == Error::InvalidReading,
        },
{
    if throws.len() != 6 {
        return Err(Error::InvalidReading);
    }
    // Convert the throws into the present and future lines.
    let mut present_lines = [Line::Open;6];
    let mut future_lines = [Line::Open;6];
    let mut changing_lines: HashSet<usize> = HashSet::new();
    let mut i: usize = 0;
    while i < 6
        invariant
            i <= 6,
            throws@.len() == 6,
            forall|k: int| 0 <= k < i ==> 6 <= #[trigger] throws@[k] <= 9,
            forall|k: int| 0 <= k < i ==> present_lines@[k] == present_line(#[trigger] throws@[k]),
            forall|k: int| 0 <= k < i ==> future_lines@[k] == future_line(#[trigger] throws@[k]),
            changing_lines@ == Set::new(|k: usize| k < i && changes(throws@[k as int])),
        decreases 6 - i,
    {
        let throw = throws[i];
        let ghost before = changing_lines@;
        if throw == 6 {
            present_lines[i] = Line::Open;
            future_lines[i] = Line::Closed;
            changing_lines.insert(i);
        } else if throw == 7 {
            present_lines[i] = Line::Closed;
            future_lines[i] = Line::Closed;
        } else if throw == 8 {
            present_lines[i] = Line::Open;
            future_lines[i] = Line::Open;
        } else if throw == 9 {
            present_lines[i] = Line::Closed;
            future_lines[i] = Line::Open;
            changing_lines.insert(i);
        } else {
            return Err(Error::InvalidReading);
        }
        proof {
            assert(changing_lines@ =~= Set::new(
                |k: usize| k < i + 1 && changes(throws@[k as int]),
            ));
        }
        i += 1;
    }
    proof {
        assert(present_lines@ =~= self::present_lines(throws@));
        assert(future_lines@ =~= self::future_lines(throws@));
        assert(changing_lines@ =~= changing_places(throws@));
    }

    // Build the present and future hexagrams.
    let present_hex = Hexagram::lookup(present_lines);
    let future_hex = Hexagram::lookup(future_lines);
    let future = if changing_lines.is_empty() {
        None
    } else {
        Some(future_hex)
    };
    Ok(Reading { question: question.to_owned(), present: present_hex, future, changing_lines })
}

/// Generate a reading of the I Ching using the given reading mode, with
/// draws from the system's random number generator.
pub fn generate_reading(method: ReadingMethod, question: &str) -> (r: Result<Reading, Error>)
    ensures
        r is Ok,
        exists|throws: Seq<u8>|
            are_throws(throws) && #[trigger] r->Ok_0.is_reading_of(throws, question@),
{
    // Generate the throws according to the reading method.
    let throws = match cast(method) {
        Ok(throws) => throws,
        Err(e) => {
            return Err(e);
        },
    };
    let r = reading_from_throws(&throws, question);
    proof {
        assert(are_throws(throws@));
    }
    r
}

} // verus!
