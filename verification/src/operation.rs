//! The operations that turn one hexagram into another.
//!
//! The catalogue holds seventeen operations, in a fixed order that every
//! search uses: the six single-line inversions from the bottom line up, then
//! the inversions and reversals of the two trigrams, the exchange and the
//! mirroring of the trigrams, the nuclear hexagram, the inversion and the
//! reversal of the whole hexagram, and the two mixings of the trigrams.
//! `NoOp` is no member of the catalogue: it only labels the hexagram that a
//! path starts from.

use crate::hexagram::{
    flipped6, flipped_at, flipped_bottom, flipped_top, lemma_every_pattern_catalogued,
    lemma_with_lines, mirrored, mixed_bottom_first, mixed_top_first, nuclear, reversed6,
    reversed_bottom, reversed_top, swapped, Hexagram, HexagramLine,
};
use crate::line::Line;
use vstd::prelude::*;

verus! {

/// The operations that can be applied to transform a hexagram.
#[derive(Copy, Clone, Debug, PartialEq, Eq, Structural)]
pub enum SearchOperation {
    /// No operation.
    NoOp,
    /// Inverse a single line.
    InverseLine(HexagramLine),
    /// Inverse the bottom trigram.
    InverseBottomTrigram,
    /// Inverse the top trigram.
    InverseTopTrigram,
    /// Reverse the order of the lines in the bottom trigram.
    ReverseBottomTrigram,
    /// Reverse the order of the lines in the top trigram.
    ReverseTopTrigram,
    /// Flip the bottom and top trigrams.
    FlipTrigrams,
    /// Mirror the bottom and top trigrams along the line that separates them.
    MirrorTrigrams,
    /// Create a new hexagram out of the bottom and top nuclear trigrams.
    NuclearTrigrams,
    /// Inverse all the lines in the hexagram.
    InverseHexagram,
    /// Reverse the order of the lines in the hexagram.
    ReverseHexagram,
    /// Create a new hexagram out of the bottom and top trigrams. The first line of the new hexagram
    /// is the first line of the bottom trigram. The second line of the new hexagram is the first
    /// line of the top trigram, and so on.
    MixTrigramsBottomFirst,
    /// Create a new hexagram out of the bottom and top trigrams. The first line of the new hexagram
    /// is the first line of the top trigram. The second line of the new hexagram is the first
    /// line of the bottom trigram, and so on.
    MixTrigramsTopFirst,
}

impl SearchOperation {
    /// The operations of the catalogue, in the order in which a search tries them.
    pub open spec fn catalogue() -> Seq<SearchOperation> {
        seq![
            SearchOperation::InverseLine(HexagramLine::First),
            SearchOperation::InverseLine(HexagramLine::Second),
            SearchOperation::InverseLine(HexagramLine::Third),
            SearchOperation::InverseLine(HexagramLine::Fourth),
            SearchOperation::InverseLine(HexagramLine::Fifth),
            SearchOperation::InverseLine(HexagramLine::Sixth),
            SearchOperation::InverseBottomTrigram,
            SearchOperation::InverseTopTrigram,
            SearchOperation::ReverseBottomTrigram,
            SearchOperation::ReverseTopTrigram,
            SearchOperation::FlipTrigrams,
            SearchOperation::MirrorTrigrams,
            SearchOperation::NuclearTrigrams,
            SearchOperation::InverseHexagram,
            SearchOperation::ReverseHexagram,
            SearchOperation::MixTrigramsBottomFirst,
            SearchOperation::MixTrigramsTopFirst,
        ]
    }

    /// The place of the operation in the catalogue; -1 for `NoOp`, which has none.
    pub open spec fn position(self) -> int {
        match self {
            SearchOperation::NoOp => -1,
            SearchOperation::InverseLine(line) => line.index(),
            SearchOperation::InverseBottomTrigram => 6,
            SearchOperation::InverseTopTrigram => 7,
            SearchOperation::ReverseBottomTrigram => 8,
            SearchOperation::ReverseTopTrigram => 9,
            SearchOperation::FlipTrigrams => 10,
            SearchOperation::MirrorTrigrams => 11,
            SearchOperation::NuclearTrigrams => 12,
            SearchOperation::InverseHexagram => 13,
            SearchOperation::ReverseHexagram => 14,
            SearchOperation::MixTrigramsBottomFirst => 15,
            SearchOperation::MixTrigramsTopFirst => 16,
        }
    }

    /// What the operation makes of six lines.
    pub open spec fn lines_after(self, l: Seq<Line>) -> Seq<Line> {
        match self {
            SearchOperation::NoOp => l,
            SearchOperation::InverseLine(line) => flipped_at(l, line.index()),
            SearchOperation::InverseBottomTrigram => flipped_bottom(l),
            SearchOperation::InverseTopTrigram => flipped_top(l),
            SearchOperation::ReverseBottomTrigram => reversed_bottom(l),
            SearchOperation::ReverseTopTrigram => reversed_top(l),
            SearchOperation::FlipTrigrams => swapped(l),
            SearchOperation::MirrorTrigrams => mirrored(l),
            SearchOperation::NuclearTrigrams => nuclear(l),
            SearchOperation::InverseHexagram => flipped6(l),
            SearchOperation::ReverseHexagram => reversed6(l),
            SearchOperation::MixTrigramsBottomFirst => mixed_bottom_first(l),
            SearchOperation::MixTrigramsTopFirst => mixed_top_first(l),
        }
    }

    /// The hexagram that the operation makes of `h`: `h` itself for `NoOp`,
    /// and otherwise the hexagram of the list that has the rearranged lines.
    pub open spec fn applied(self, h: Hexagram) -> Hexagram {
        if self is NoOp {
            h
        } else {
            Hexagram::with_lines(self.lines_after(h.lines@))
        }
    }

    /// Whether applying the operation twice gives every hexagram back. This
    /// holds of all operations but the nuclear hexagram and the two mixings.
    pub open spec fn undoes_itself(self) -> bool {
        !(self is NuclearTrigrams || self is MixTrigramsBottomFirst || self is MixTrigramsTopFirst)
    }

    /// Returns all possible search operations.
    pub fn all_operations() -> (ops: Vec<SearchOperation>)
        ensures
            ops@ == SearchOperation::catalogue(),
    {
        let mut ops: Vec<SearchOperation> = Vec::new();
        ops.push(SearchOperation::InverseLine(HexagramLine::First));
        ops.push(SearchOperation::InverseLine(HexagramLine::Second));
        ops.push(SearchOperation::InverseLine(HexagramLine::Third));
        ops.push(SearchOperation::InverseLine(HexagramLine::Fourth));
        ops.push(SearchOperation::InverseLine(HexagramLine::Fifth));
        ops.push(SearchOperation::InverseLine(HexagramLine::Sixth));
        ops.push(SearchOperation::InverseBottomTrigram);
        ops.push(SearchOperation::InverseTopTrigram);
        ops.push(SearchOperation::ReverseBottomTrigram);
        ops.push(SearchOperation::ReverseTopTrigram);
        ops.push(SearchOperation::FlipTrigrams);
        ops.push(SearchOperation::MirrorTrigrams);
        ops.push(SearchOperation::NuclearTrigrams);
        ops.push(SearchOperation::InverseHexagram);
        ops.push(SearchOperation::ReverseHexagram);
        ops.push(SearchOperation::MixTrigramsBottomFirst);
        ops.push(SearchOperation::MixTrigramsTopFirst);
        proof {
            assert(ops@ =~= SearchOperation::catalogue());
        }
        ops
    }

    /// Applies the search operation to the given hexagram.
    pub fn apply(&self, hexagram: &Hexagram) -> (r: Hexagram)
        ensures
            r == self.applied(*hexagram),
            !(self is NoOp) ==> r.is_catalogued() && r.lines@ == self.lines_after(hexagram.lines@),
    {
        let r = match self {
            SearchOperation::InverseLine(line) => hexagram.inverse_line(*line),
            SearchOperation::InverseHexagram => hexagram.inverse(),
            SearchOperation::InverseBottomTrigram => hexagram.inverse_bottom_trigram(),
            SearchOperation::InverseTopTrigram => hexagram.inverse_top_trigram(),
            SearchOperation::ReverseHexagram => hexagram.reverse(),
            SearchOperation::ReverseTopTrigram => hexagram.reverse_top_trigram(),
            SearchOperation::ReverseBottomTrigram => hexagram.reverse_bottom_trigram(),
            SearchOperation::FlipTrigrams => hexagram.flip_trigrams(),
            SearchOperation::MirrorTrigrams => hexagram.mirror_trigrams(),
            SearchOperation::NuclearTrigrams => hexagram.use_nuclear_trigrams(),
            SearchOperation::MixTrigramsBottomFirst => hexagram.mix_trigrams_bottom_first(),
            SearchOperation::MixTrigramsTopFirst => hexagram.mix_trigrams_top_first(),
            SearchOperation::NoOp => *hexagram,
        };
        proof {
            if !(self is NoOp) {
                lemma_with_lines(r);
            }
        }
        r
    }
}

/// `NoOp` leaves every hexagram as it is.
pub proof fn lemma_noop_changes_nothing(h: Hexagram)
    ensures
        SearchOperation::NoOp.applied(h) == h,
{
}

/// Every operation of the catalogue makes a hexagram of the list, with the
/// lines that the operation prescribes.
pub proof fn lemma_applied_is_catalogued(op: SearchOperation, h: Hexagram)
    requires
        !(op is NoOp),
    ensures
        op.applied(h).is_catalogued(),
        op.applied(h).lines@ == op.lines_after(h.lines@),
{
    lemma_every_pattern_catalogued(op.lines_after(h.lines@));
}

/// An operation other than the nuclear hexagram and the two mixings is its
/// own inverse: applied twice to a hexagram of the list, it gives that
/// hexagram back.
pub proof fn lemma_applied_twice(op: SearchOperation, h: Hexagram)
    requires
        h.is_catalogued(),
        op.undoes_itself(),
    ensures
        op.applied(op.applied(h)) == h,
{
    if !(op is NoOp) {
        let once = op.applied(h);
        lemma_applied_is_catalogued(op, h);
        lemma_applied_is_catalogued(op, once);
        lemma_lines_twice(op, h.lines@);
        lemma_with_lines(h);
    }
}

/// An operation other than the nuclear hexagram and the two mixings, applied
/// twice to six lines, gives the six lines back.
pub proof fn lemma_lines_twice(op: SearchOperation, l: Seq<Line>)
    requires
        l.len() == 6,
        op.undoes_itself(),
    ensures
        op.lines_after(op.lines_after(l)) == l,
{
    match op {
        SearchOperation::NoOp => {},
        SearchOperation::InverseLine(line) => {
            assert(flipped_at(flipped_at(l, line.index()), line.index()) =~= l);
        },
        SearchOperation::InverseBottomTrigram => {
            assert(flipped_bottom(flipped_bottom(l)) =~= l);
        },
        SearchOperation::InverseTopTrigram => {
            assert(flipped_top(flipped_top(l)) =~= l);
        },
        SearchOperation::ReverseBottomTrigram => {
            assert(reversed_bottom(reversed_bottom(l)) =~= l);
        },
        SearchOperation::ReverseTopTrigram => {
            assert(reversed_top(reversed_top(l)) =~= l);
        },
        SearchOperation::FlipTrigrams => {
            assert(swapped(swapped(l)) =~= l);
        },
        SearchOperation::MirrorTrigrams => {
            assert(mirrored(mirrored(l)) =~= l);
        },
        SearchOperation::InverseHexagram => {
            assert(flipped6(flipped6(l)) =~= l);
        },
        SearchOperation::ReverseHexagram => {
            assert(reversed6(reversed6(l)) =~= l);
        },
        _ => {},
    }
}

/// Each operation of the catalogue stands at its place, and only there.
pub proof fn lemma_position(op: SearchOperation)
    ensures
        op is NoOp <==> op.position() == -1,
        !(op is NoOp) ==> 0 <= op.position() < 17 && SearchOperation::catalogue()[op.position()]
            == op,
        SearchOperation::catalogue().len() == 17,
{
}

/// Two operations at the same place are the same operation.
pub proof fn lemma_position_decides(a: SearchOperation, b: SearchOperation)
    requires
        a.position() == b.position(),
    ensures
        a == b,
{
    lemma_position(a);
    lemma_position(b);
}

} // verus!
