//! The analysis of a sequence of hexagrams: for each hexagram and the next,
//! the shortest paths with the least line changes, and the totals over the
//! whole sequence.

use crate::error::Error;
use crate::hexagram::Hexagram;
use crate::path::{
    capped, count_line_changes, lemma_changes_not_negative, path_line_changes, Path, Steps,
};
use crate::search::{is_search_result, path_views, HexagramSearcher};
use rand::seq::SliceRandom;
use rayon::iter::{IntoParallelIterator, ParallelIterator};
use vstd::prelude::*;

verus! {

/// The number of steps of a path: one less than its entries.
pub open spec fn steps_of(w: Steps) -> nat {
    if w.len() == 0 {
        0
    } else {
        (w.len() - 1) as nat
    }
}

/// The steps of the first path of each leg, added up.
pub open spec fn total_steps(legs: Seq<Seq<Steps>>) -> nat
    decreases legs.len(),
{
    if legs.len() == 0 {
        0
    } else {
        total_steps(legs.drop_last()) + steps_of(legs.last()[0])
    }
}

/// The line changes of the first path of each leg, added up.
pub open spec fn total_changes(legs: Seq<Seq<Steps>>) -> int
    decreases legs.len(),
{
    if legs.len() == 0 {
        0
    } else {
        total_changes(legs.drop_last()) + path_line_changes(legs.last()[0])
    }
}

/// The numbers of paths of the legs, multiplied: in so many ways can one
/// path be picked for each leg.
pub open spec fn total_choices(legs: Seq<Seq<Steps>>) -> nat
    decreases legs.len(),
{
    if legs.len() == 0 {
        1
    } else {
        total_choices(legs.drop_last()) * legs.last().len()
    }
}

/// A count that no longer grows once it has reached the largest `u128`.
pub open spec fn capped_wide(n: int) -> u128 {
    if n >= u128::MAX {
        u128::MAX
    } else if n < 0 {
        0
    } else {
        n as u128
    }
}

/// The numbers from 1 to 64 in their order.
pub open spec fn king_wen_numbers() -> Seq<usize> {
    Seq::new(64, |i: int| (i + 1) as usize)
}

/// The number at index `k` is the first of the sequence that is not
/// between 1 and 64.
pub open spec fn is_first_invalid(sequence: Seq<usize>, k: int) -> bool {
    &&& 0 <= k < sequence.len()
    &&& !(1 <= sequence[k] <= 64)
    &&& forall|j: int| 0 <= j < k ==> 1 <= #[trigger] sequence[j] <= 64
}

/// King Wen's sequence is the sequence of hexagrams as they appear in the I Ching.
pub fn king_wen() -> (sequence: Vec<usize>)
    ensures
        sequence@ == king_wen_numbers(),
{
    let mut sequence: Vec<usize> = Vec::new();
    let mut number: usize = 1;
    while number <= 64
        invariant
            1 <= number <= 65,
            sequence@.len() == number - 1,
            forall|i: int| 0 <= i < sequence@.len() ==> sequence@[i] == i + 1,
        decreases 65 - number,
    {
        sequence.push(number);
        number += 1;
    }
    proof {
        assert(sequence@ =~= king_wen_numbers());
    }
    sequence
}

/// The result of performing a sequence analysis.
#[derive(Clone, Debug)]
pub struct SequenceAnalysis {
    /// The sequence of hexagrams.
    pub sequence: Vec<usize>,
    /// The shortest paths between each pair of hexagrams.
    pub shortest_paths: Vec<Vec<Path>>,
    /// The total number of operations between the initial and final hexagrams in the sequence.
    pub total_ops: u64,
    /// The total number of line changes between the initial and final hexagrams in the sequence.
    pub total_line_changes: u64,
    /// The total number of paths from the initial to the final hexagram.
    pub total_paths: u128,
}

impl Default for SequenceAnalysis {
    fn default() -> (r: SequenceAnalysis)
        ensures
            r.sequence@.len() == 0,
            r.shortest_paths@.len() == 0,
            r.total_ops == 0,
            r.total_line_changes == 0,
            r.total_paths == 0,
    {
        SequenceAnalysis {
            sequence: Vec::new(),
            shortest_paths: Vec::new(),
            total_ops: 0,
            total_line_changes: 0,
            total_paths: 0,
        }
    }
}

/// The entries of each path of each leg.
pub open spec fn leg_views(legs: Seq<Vec<Path>>) -> Seq<Seq<Steps>> {
    Seq::new(legs.len(), |i: int| path_views(legs[i]@))
}

impl SequenceAnalysis {
    /// The paths of the analysis, leg by leg.
    pub open spec fn legs(&self) -> Seq<Seq<Steps>> {
        leg_views(self.shortest_paths@)
    }

    /// The analysis is that of its sequence: it has a leg for each hexagram
    /// and the next, which holds what a search between the two returns that
    /// is not asked for all shortest paths, and its totals are those of its
    /// legs. Each total stops at the largest number of its type.
    pub open spec fn is_analysis(&self) -> bool {
        &&& self.shortest_paths@.len() == if self.sequence@.len() == 0 {
            0
        } else {
            self.sequence@.len() - 1
        }
        &&& forall|i: int|
            0 <= i < self.shortest_paths@.len() ==> {
                &&& 1 <= self.sequence@[i] <= 64
                &&& 1 <= self.sequence@[i + 1] <= 64
                &&& is_search_result(
                    #[trigger] self.legs()[i],
                    Hexagram::of_number(self.sequence@[i] as int),
                    Hexagram::of_number(self.sequence@[i + 1] as int),
                    false,
                )
            }
        &&& self.total_ops == capped(total_steps(self.legs()) as int)
        &&& self.total_line_changes == capped(total_changes(self.legs()))
        &&& self.total_paths == capped_wide(total_choices(self.legs()) as int)
    }

    /// Produces the analysis of the sequence of hexagrams.
    ///
    /// A sequence of fewer than two hexagrams has no leg, and its numbers are
    /// not looked at. In a longer one every number must be between 1 and 64.
    pub fn new(sequence: Vec<usize>) -> (r: Result<Self, Error>)
        ensures
            match r {
                Ok(analysis) => analysis.sequence@ == sequence@ && analysis.is_analysis(),
                Err(e) => sequence@.len() >= 2 && exists|k: int|
                    #![trigger sequence@[k]]
                    is_first_invalid(sequence@, k) && e == if k == 0 {
                        Error::InvalidStart(sequence@[k])
                    } else {
                        Error::InvalidEnd(sequence@[k])
                    },
            },
    {
        // Find the shortest paths between each pair of hexagrams.
        let mut shortest_paths: Vec<Vec<Path>> = Vec::new();
        let mut i: usize = 1;
        while i < sequence.len()
            invariant
                1 <= i,
                sequence@.len() >= 2 ==> i <= sequence@.len(),
                sequence@.len() >= 2 ==> shortest_paths@.len() == i - 1,
                sequence@.len() < 2 ==> shortest_paths@.len() == 0,
                forall|j: int| 0 <= j < i - 1 ==> 1 <= #[trigger] sequence@[j] <= 64,
                shortest_paths@.len() > 0 ==> 1 <= sequence@[i - 1] <= 64,
                forall|j: int|
                    0 <= j < shortest_paths@.len() ==> is_search_result(
                        #[trigger] leg_views(shortest_paths@)[j],
                        Hexagram::of_number(sequence@[j] as int),
                        Hexagram::of_number(sequence@[j + 1] as int),
                        false,
                    ),
            decreases sequence@.len() - i,
        {
            let searcher = match HexagramSearcher::new(sequence[i - 1], sequence[i]) {
                Ok(searcher) => searcher,
                Err(e) => {
                    proof {
                        if 1 <= sequence@[i - 1] <= 64 {
                            assert(is_first_invalid(sequence@, i as int));
                        } else {
                            assert(i == 1);
                            assert(is_first_invalid(sequence@, 0));
                        }
                    }
                    return Err(e);
                },
            };
            let paths = searcher.find_shortest_paths(false);
            proof {
                let before = leg_views(shortest_paths@);
                let after = leg_views(shortest_paths@.push(paths));
                assert forall|j: int| 0 <= j < after.len() implies is_search_result(
                    #[trigger] after[j],
                    Hexagram::of_number(sequence@[j] as int),
                    Hexagram::of_number(sequence@[j + 1] as int),
                    false,
                ) by {
                    if j < before.len() {
                        assert(after[j] == before[j]);
                    }
                }
            }
            shortest_paths.push(paths);
            i += 1;
        }

        // Compute the other values from the shortest paths.
        let mut total_ops: u64 = 0;
        let mut total_line_changes: u64 = 0;
        let mut total_paths: u128 = 1;
        let mut k: usize = 0;
        let ghost legs = leg_views(shortest_paths@);
        while k < shortest_paths.len()
            invariant
                k <= shortest_paths@.len(),
                legs == leg_views(shortest_paths@),
                forall|j: int|
                    0 <= j < shortest_paths@.len() ==> is_search_result(
                        #[trigger] legs[j],
                        Hexagram::of_number(sequence@[j] as int),
                        Hexagram::of_number(sequence@[j + 1] as int),
                        false,
                    ),
                total_ops == capped(total_steps(legs.subrange(0, k as int)) as int),
                total_line_changes == capped(total_changes(legs.subrange(0, k as int))),
                total_changes(legs.subrange(0, k as int)) >= 0,
                total_paths == capped_wide(total_choices(legs.subrange(0, k as int)) as int),
                total_choices(legs.subrange(0, k as int)) >= 1,
            decreases shortest_paths@.len() - k,
        {
            let paths = &shortest_paths[k];
            proof {
                let seen = legs.subrange(0, k + 1);
                assert(seen.drop_last() =~= legs.subrange(0, k as int));
                assert(seen.last() == legs[k as int]);
                assert(is_search_result(
                    legs[k as int],
                    Hexagram::of_number(sequence@[k as int] as int),
                    Hexagram::of_number(sequence@[k + 1] as int),
                    false,
                ));
                assert(legs[k as int][0] == paths@[0]@);
                lemma_changes_not_negative(paths@[0]@);
                lemma_product_grows(
                    total_choices(legs.subrange(0, k as int)),
                    legs[k as int].len(),
                );
            }
            total_ops = total_ops.saturating_add((paths[0].len() - 1) as u64);
            total_line_changes = total_line_changes.saturating_add(count_line_changes(&paths[0]));
            total_paths = match total_paths.checked_mul(paths.len() as u128) {
                Some(product) => product,
                None => u128::MAX,
            };
            k += 1;
        }
        proof {
            assert(legs.subrange(0, k as int) =~= legs);
        }
        Ok(Self { sequence, shortest_paths, total_ops, total_line_changes, total_paths })
    }
}

/// A product of numbers that are at least 1 is at least each of them.
proof fn lemma_product_grows(a: nat, b: nat)
    requires
        a >= 1,
        b >= 1,
    ensures
        a * b >= a,
        a * b >= 1,
{
    assert(a * b >= a) by (nonlinear_arith)
        requires
            a >= 1,
            b >= 1,
    ;
}

/// Finds the analysis with the fewest operations in all; of several such,
/// the one that stands first. `None` where there is no analysis.
pub fn least_total_ops(analyses: &Vec<SequenceAnalysis>) -> (best: Option<usize>)
    ensures
        match best {
            Some(b) => {
                &&& b < analyses@.len()
                &&& forall|j: int|
                    0 <= j < analyses@.len() ==> analyses@[b as int].total_ops <= (
                    #[trigger] analyses@[j]).total_ops
                &&& forall|j: int|
                    0 <= j < b ==> analyses@[b as int].total_ops < (#[trigger] analyses@[j]).total_ops
            },
            None => analyses@.len() == 0,
        },
{
    if analyses.len() == 0 {
        return None;
    }
    let mut best: usize = 0;
    let mut i: usize = 1;
    while i < analyses.len()
        invariant
            1 <= i <= analyses@.len(),
            best < i,
            forall|j: int|
                0 <= j < i ==> analyses@[best as int].total_ops <= (#[trigger] analyses@[j]).total_ops,
            forall|j: int|
                0 <= j < best ==> analyses@[best as int].total_ops < (
                #[trigger] analyses@[j]).total_ops,
        decreases analyses@.len() - i,
    {
        if analyses[i].total_ops < analyses[best].total_ops {
            best = i;
        }
        i += 1;
    }
    Some(best)
}

/// Of several analyses, the one with the fewest operations in all; of
/// several such, the one that stands first.
pub fn min_by_total_ops(analyses: Vec<SequenceAnalysis>) -> (least: Option<SequenceAnalysis>)
    ensures
        match least {
            Some(a) => exists|b: int|
                {
                    &&& 0 <= b < analyses@.len()
                    &&& a == #[trigger] analyses@[b]
                    &&& forall|j: int|
                        0 <= j < analyses@.len() ==> a.total_ops <= (#[trigger] analyses@[j]).total_ops
                    &&& forall|j: int| 0 <= j < b ==> a.total_ops < (#[trigger] analyses@[j]).total_ops
                },
            None => analyses@.len() == 0,
        },
{
    let mut analyses = analyses;
    match least_total_ops(&analyses) {
        Some(best) => Some(analyses.remove(best)),
        None => None,
    }
}

/// Brings the numbers of the sequence into a random order.
///
/// `rand::seq::SliceRandom::shuffle` with the generator of the thread,
/// `rand::thread_rng`. Of the outcome this states what holds of every
/// shuffle, which only exchanges entries: the sequence holds the same
/// numbers as before, each as often as before.
#[verifier::external_body]
fn shuffle(sequence: &mut Vec<usize>)
    ensures
        final(sequence)@.to_multiset() == old(sequence)@.to_multiset(),
{
    sequence.shuffle(&mut rand::thread_rng());
}

/// The analysis of King Wen's sequence in a random order.
pub fn random_sequence_analysis() -> (analysis: SequenceAnalysis)
    ensures
        is_shuffled_analysis(analysis),
{
    let mut random_sequence = king_wen();
    shuffle(&mut random_sequence);
    proof {
        lemma_same_numbers(king_wen_numbers(), random_sequence@);
    }
    match SequenceAnalysis::new(random_sequence) {
        Ok(analysis) => analysis,
        Err(_) => {
            proof {
                let k = choose|k: int|
                    #![trigger random_sequence@[k]]
                    is_first_invalid(random_sequence@, k);
                assert(1 <= random_sequence@[k] <= 64);
            }
            vstd::pervasive::unreached()
        },
    }
}

/// The analysis is that of King Wen's sequence in some order.
pub open spec fn is_shuffled_analysis(analysis: SequenceAnalysis) -> bool {
    analysis.is_analysis() && analysis.sequence@.to_multiset() == king_wen_numbers().to_multiset()
}

/// A sequence that holds the same numbers as King Wen's holds only numbers
/// between 1 and 64.
proof fn lemma_same_numbers(a: Seq<usize>, b: Seq<usize>)
    requires
        a.to_multiset() == b.to_multiset(),
        forall|i: int| 0 <= i < a.len() ==> 1 <= #[trigger] a[i] <= 64,
    ensures
        forall|i: int| 0 <= i < b.len() ==> 1 <= #[trigger] b[i] <= 64,
{
    assert forall|i: int| 0 <= i < b.len() implies 1 <= #[trigger] b[i] <= 64 by {
        vstd::seq_lib::to_multiset_contains(b, b[i]);
        vstd::seq_lib::to_multiset_contains(a, b[i]);
        assert(b.contains(b[i]));
        let j = choose|j: int| 0 <= j < a.len() && a[j] == b[i];
        assert(1 <= a[j] <= 64);
    }
}

/// Analyses `num_sequences` random orders of King Wen's sequence, each on a
/// thread of the pool.
///
/// `rayon`'s `into_par_iter` on a range, `map` and `collect` into a `Vec`,
/// which holds one item for each number of the range. Each item is what one
/// call of `random_sequence_analysis` returned, so that function's own
/// contract holds of it.
#[verifier::external_body]
fn random_analyses(num_sequences: usize) -> (analyses: Vec<SequenceAnalysis>)
    ensures
        analyses@.len() == num_sequences,
        forall|i: int| 0 <= i < analyses@.len() ==> is_shuffled_analysis(#[trigger] analyses@[i]),
{
    (0..num_sequences).into_par_iter().map(|_| random_sequence_analysis()).collect()
}

/// Finds the best random shuffling of the King Wen's sequence by the number of operations.
///
/// Which shufflings are tried is left to chance; of those tried, the one
/// with the fewest operations is returned, as `min_by_total_ops` picks it.
pub fn find_min_random_sequence(num_sequences: usize) -> (r: Result<SequenceAnalysis, Error>)
    requires
        num_sequences >= 1,
    ensures
        r is Ok,
        is_shuffled_analysis(r->Ok_0),
{
    let analyses = random_analyses(num_sequences);
    match min_by_total_ops(analyses) {
        Some(least) => Ok(least),
        None => vstd::pervasive::unreached(),
    }
}

} // verus!
