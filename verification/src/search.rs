//! The exact search for the shortest paths between two hexagrams.
//!
//! The search goes breadth first. Its queue holds paths, the path of no steps
//! from the start hexagram at first. It takes the path at the front, tries on
//! its last hexagram every operation of the catalogue in order, and leaves
//! out each new hexagram that the path has passed already. A path that has
//! reached the end hexagram is recorded; any other goes to the back of the
//! queue. The search stops at the first path from the queue that is as long
//! as a recorded one, so that it records every shortest path and no other.

use crate::error::Error;
use crate::frontier::{
    expanded, extensions, grown, in_order, is_hit, is_hit_list, is_level, lemma_expanded_length,
    lemma_first_level, lemma_goal_is_found, lemma_next_level,
};
use crate::hexagram::Hexagram;
use crate::operation::SearchOperation;
use crate::path::{
    capped, comes_before, count_line_changes, is_path, is_simple, lemma_changes_not_negative,
    lemma_connected, lemma_shortcut, path_line_changes, visits, Path, Steps,
};
use std::collections::VecDeque;
use vstd::prelude::*;

verus! {

/// The entries of each path of a list.
pub open spec fn path_views(paths: Seq<Path>) -> Seq<Steps> {
    Seq::new(paths.len(), |i: int| paths[i]@)
}

/// The least number of line changes among the paths, each count stopping at
/// the largest `u64`; the largest `u64` where there is no path.
pub open spec fn least_changes(paths: Seq<Steps>) -> u64
    decreases paths.len(),
{
    if paths.len() == 0 {
        u64::MAX
    } else {
        let rest = least_changes(paths.drop_last());
        let last = capped(path_line_changes(paths.last()));
        if last < rest {
            last
        } else {
            rest
        }
    }
}

/// The paths of the list whose line changes number `changes`, in the order
/// of the list.
pub open spec fn with_changes(paths: Seq<Steps>, changes: u64) -> Seq<Steps>
    decreases paths.len(),
{
    if paths.len() == 0 {
        Seq::empty()
    } else if capped(path_line_changes(paths.last())) == changes {
        with_changes(paths.drop_last(), changes).push(paths.last())
    } else {
        with_changes(paths.drop_last(), changes)
    }
}

/// What a search from `start` to `end` returns.
///
/// The paths are paths from `start` to `end` of one length, which no path
/// from `start` to `end` undercuts, and they stand in the order in which the
/// search finds them, so that none occurs twice. With `all` set they are all
/// the paths of that length. Without it they are those among them with the
/// least number of line changes: each path of that length which is left out
/// has more line changes than the paths returned.
pub open spec fn is_search_result(paths: Seq<Steps>, start: Hexagram, end: Hexagram, all: bool) -> bool {
    &&& paths.len() > 0
    &&& paths[0].len() <= 7
    &&& forall|i: int|
        0 <= i < paths.len() ==> is_path(#[trigger] paths[i], start, end) && paths[i].len()
            == paths[0].len()
    &&& forall|w: Steps| #[trigger] is_path(w, start, end) ==> w.len() >= paths[0].len()
    &&& in_order(paths)
    &&& all ==> forall|w: Steps|
        #[trigger] is_path(w, start, end) && w.len() == paths[0].len() ==> paths.contains(w)
    &&& !all ==> forall|i: int|
        0 <= i < paths.len() ==> path_line_changes(#[trigger] paths[i]) == path_line_changes(
            paths[0],
        )
    &&& !all ==> forall|w: Steps|
        #[trigger] is_path(w, start, end) && w.len() == paths[0].len() ==> {
            &&& path_line_changes(w) >= path_line_changes(paths[0])
            &&& path_line_changes(w) == path_line_changes(paths[0]) <==> paths.contains(w)
        }
}

/// Given two hexagrams, finds the shortest path between them.
pub struct HexagramSearcher {
    /// The initial hexagram from which to start the search.
    pub start_hexagram: Hexagram,
    /// The final hexagram to reach.
    pub end_hexagram: Hexagram,
}

impl HexagramSearcher {
    /// Both hexagrams are hexagrams of the list.
    pub open spec fn wf(&self) -> bool {
        self.start_hexagram.is_catalogued() && self.end_hexagram.is_catalogued()
    }

    /// Creates a new hexagram searcher.
    pub fn new(start: usize, end: usize) -> (r: Result<Self, Error>)
        ensures
            match r {
                Ok(searcher) => {
                    &&& 1 <= start <= 64
                    &&& 1 <= end <= 64
                    &&& searcher.wf()
                    &&& searcher.start_hexagram == Hexagram::of_number(start as int)
                    &&& searcher.end_hexagram == Hexagram::of_number(end as int)
                    &&& searcher.start_hexagram.number == start
                    &&& searcher.end_hexagram.number == end
                },
                Err(e) => if 1 <= start <= 64 {
                    !(1 <= end <= 64) && e == Error::InvalidEnd(end)
                } else {
                    e == Error::InvalidStart(start)
                },
            },
    {
        // Validate the hexagram numbers.
        if start < 1 || start > 64 {
            return Err(Error::InvalidStart(start));
        }
        if end < 1 || end > 64 {
            return Err(Error::InvalidEnd(end));
        }
        // Get the lines and hexagrams.
        let start_hexagram = Hexagram::numbered(start);
        let end_hexagram = Hexagram::numbered(end);
        Ok(Self { start_hexagram, end_hexagram })
    }

    /// Returns only the paths with the least line changes.
    pub fn find_least_lines_changed(paths: &[Path]) -> (out: Vec<Path>)
        ensures
            path_views(out@) == with_changes(
                path_views(paths@),
                least_changes(path_views(paths@)),
            ),
    {
        // Find the minimum number of lines for all the paths.
        let mut min_lines_changed = u64::MAX;
        let mut i: usize = 0;
        while i < paths.len()
            invariant
                i <= paths@.len(),
                min_lines_changed == least_changes(path_views(paths@).subrange(0, i as int)),
            decreases paths@.len() - i,
        {
            let line_changes = count_line_changes(&paths[i]);
            proof {
                let seen = path_views(paths@).subrange(0, i + 1);
                assert(seen.drop_last() =~= path_views(paths@).subrange(0, i as int));
            }
            if min_lines_changed == u64::MAX || line_changes < min_lines_changed {
                min_lines_changed = line_changes;
            }
            i += 1;
        }
        proof {
            assert(path_views(paths@).subrange(0, i as int) =~= path_views(paths@));
        }
        // Then, return all the paths with the minimum number of lines.
        let mut out: Vec<Path> = Vec::new();
        let mut k: usize = 0;
        while k < paths.len()
            invariant
                k <= paths@.len(),
                path_views(out@) == with_changes(
                    path_views(paths@).subrange(0, k as int),
                    min_lines_changed,
                ),
            decreases paths@.len() - k,
        {
            let line_changes = count_line_changes(&paths[k]);
            proof {
                let seen = path_views(paths@).subrange(0, k + 1);
                assert(seen.drop_last() =~= path_views(paths@).subrange(0, k as int));
            }
            if line_changes == min_lines_changed {
                let copy = copy_path(&paths[k]);
                proof {
                    assert(path_views(out@.push(copy)) =~= path_views(out@).push(copy@));
                }
                out.push(copy);
            }
            k += 1;
        }
        proof {
            assert(path_views(paths@).subrange(0, k as int) =~= path_views(paths@));
        }
        out
    }

    /// Returns all the shortest paths between the initial and final hexagrams.
    pub fn find_shortest_paths(&self, all: bool) -> (paths: Vec<Path>)
        requires
            self.wf(),
        ensures
            is_search_result(path_views(paths@), self.start_hexagram, self.end_hexagram, all),
            paths@.len() > 0,
            forall|i: int|
                0 <= i < paths@.len() ==> (#[trigger] paths@[i])@.len() >= 1 && paths@[i]@[0] == (
                    self.start_hexagram,
                    SearchOperation::NoOp,
                ) && paths@[i]@.last().0 == self.end_hexagram,
    {
        let start = self.start_hexagram;
        let end = self.end_hexagram;
        let mut first: Path = Vec::new();
        first.push((start, SearchOperation::NoOp));
        if start.same(&end) {
            let mut only: Vec<Path> = Vec::new();
            only.push(first);
            proof {
                assert(path_views(only@)[0] == only@[0]@);
                assert(only@[0]@ =~= seq![(start, SearchOperation::NoOp)]);
                lemma_no_steps(start, path_views(only@), all);
            }
            return only;
        }
        // Create a queue of paths to search to perform a breadth-first search.
        let mut queue: VecDeque<Path> = VecDeque::new();
        queue.push_back(first);
        let ops = SearchOperation::all_operations();

        // Store a list of all the shortest paths. Then search until the queue is empty, or we find
        // all the shortest paths.
        let mut shortest_paths: Vec<Path> = Vec::new();
        let mut finished = false;
        let ghost mut goal: Steps = Seq::empty();
        let ghost mut level: Seq<Steps> = seq![seq![(start, SearchOperation::NoOp)]];
        let ghost mut steps: int = 0;
        let ghost mut tried: int = 0;
        proof {
            let connection = lemma_connected(start, end);
            goal = lemma_shortcut(connection, start, end);
            lemma_first_level(start, end);
            assert(path_views(queue@) =~= level.subrange(0, 1));
            assert(path_views(shortest_paths@) =~= expanded(level, end, 0, true));
            assert(level.subrange(0, 1) =~= level.subrange(0, 1) + expanded(level, end, 0, false));
        }
        while !finished && queue.len() > 0
            invariant
                ops@ == SearchOperation::catalogue(),
                start.is_catalogued(),
                end.is_catalogued(),
                start != end,
                is_path(goal, start, end),
                is_simple(goal),
                goal.len() <= 7,
                0 <= steps,
                is_level(level, start, end, steps),
                forall|w: Steps| #[trigger] is_path(w, start, end) && is_simple(w) ==> w.len() > steps + 1,
                0 <= tried <= level.len(),
                path_views(shortest_paths@) == expanded(level, end, tried, true),
                !finished ==> path_views(queue@) == level.subrange(tried, level.len() as int)
                    + expanded(level, end, tried, false),
                finished ==> tried == level.len() && shortest_paths@.len() > 0,
            decreases 7 - steps, level.len() - tried, if finished { 0int } else { 1int },
        {
            // Take the next path from the queue. Stop if a shorter path has been found.
            let ghost waiting = path_views(queue@);
            let path = queue.pop_front().unwrap();
            proof {
                assert(path@ == waiting[0]);
                assert(path_views(queue@) =~= waiting.subrange(1, waiting.len() as int));
                lemma_expanded_length(level, start, end, steps, tried, true);
                if shortest_paths@.len() > 0 {
                    assert(path_views(shortest_paths@)[0] == shortest_paths@[0]@);
                }
                if tried == level.len() {
                    lemma_expanded_length(level, start, end, steps, tried, false);
                    assert(waiting =~= expanded(level, end, tried, false));
                    if shortest_paths@.len() == 0 {
                        let next = expanded(level, end, tried, false);
                        lemma_next_level(level, start, end, steps);
                        assert forall|w: Steps| #[trigger]
                            is_path(w, start, end) && is_simple(w) implies w.len() > steps + 2 by {
                            if w.len() == steps + 2 {
                                assert(is_hit(w, start, end, steps + 1));
                                assert(path_views(shortest_paths@).contains(w));
                            }
                        }
                        assert(level.subrange(tried, level.len() as int) + next =~= next);
                        level = next;
                        steps = steps + 1;
                        tried = 0;
                        assert(goal.len() > steps + 1);
                        assert(path_views(shortest_paths@) =~= expanded(level, end, 0, true));
                    }
                } else {
                    assert(path@ == level[tried]);
                }
            }
            if shortest_paths.len() > 0 && path.len() >= shortest_paths[0].len() {
                finished = true;
            } else {
                let ghost rest = path_views(queue@);
                // Try each operation on the current hexagram.
                try_operations(&path, &ops, &end, &mut queue, &mut shortest_paths);
                proof {
                    assert(path@ == level[tried]);
                    assert(rest =~= level.subrange(tried + 1, level.len() as int) + expanded(
                        level,
                        end,
                        tried,
                        false,
                    ));
                    assert(path_views(queue@) =~= level.subrange(tried + 1, level.len() as int)
                        + expanded(level, end, tried + 1, false));
                    tried = tried + 1;
                }
            }
        }
        proof {
            if !finished {
                assert(tried == level.len());
                assert(path_views(queue@) =~= expanded(level, end, tried, false));
                lemma_goal_is_found(level, start, end, steps, goal);
            }
            lemma_next_level(level, start, end, steps);
            lemma_shortest(path_views(shortest_paths@), start, end, steps + 1);
        }

        // Return the shortest paths. Either return all or only the ones with the least number of
        // lines changed.
        let paths = if all {
            shortest_paths
        } else {
            proof {
                lemma_least_changed(path_views(shortest_paths@), start, end);
            }
            Self::find_least_lines_changed(shortest_paths.as_slice())
        };
        proof {
            assert forall|i: int| 0 <= i < paths@.len() implies (#[trigger] paths@[i])@.len() >= 1
                && paths@[i]@[0] == (start, SearchOperation::NoOp) && paths@[i]@.last().0
                == end by {
                assert(is_path(path_views(paths@)[i], start, end));
            }
        }
        paths
    }
}

/// Makes a copy of a path.
fn copy_path(path: &Path) -> (copy: Path)
    ensures
        copy@ == path@,
{
    let mut copy: Path = Vec::new();
    let mut i: usize = 0;
    while i < path.len()
        invariant
            i <= path@.len(),
            copy@ == path@.subrange(0, i as int),
        decreases path@.len() - i,
    {
        copy.push(path[i]);
        proof {
            assert(copy@ =~= path@.subrange(0, i + 1));
        }
        i += 1;
    }
    proof {
        assert(path@.subrange(0, i as int) =~= path@);
    }
    copy
}

/// Whether the path passes the hexagram.
fn path_visits(path: &Path, hexagram: &Hexagram) -> (r: bool)
    ensures
        r == visits(path@, *hexagram),
{
    let mut i: usize = 0;
    while i < path.len()
        invariant
            i <= path@.len(),
            forall|k: int| 0 <= k < i ==> (#[trigger] path@[k]).0 != *hexagram,
        decreases path@.len() - i,
    {
        if path[i].0.same(hexagram) {
            return true;
        }
        i += 1;
    }
    false
}

/// Tries every operation of the catalogue on the last hexagram of the path.
/// Each new path that reaches the end hexagram is recorded in `found`; each
/// other goes to the back of the queue.
fn try_operations(
    path: &Path,
    ops: &Vec<SearchOperation>,
    end: &Hexagram,
    queue: &mut VecDeque<Path>,
    found: &mut Vec<Path>,
)
    requires
        ops@ == SearchOperation::catalogue(),
        path@.len() >= 1,
    ensures
        path_views(final(queue)@) == path_views(old(queue)@) + extensions(path@, *end, 17, false),
        path_views(final(found)@) == path_views(old(found)@) + extensions(path@, *end, 17, true),
{
    let ghost queue_before = path_views(queue@);
    let ghost found_before = path_views(found@);
    let current_hexagram = path[path.len() - 1].0;
    let mut j: usize = 0;
    proof {
        assert(path_views(queue@) =~= queue_before + extensions(path@, *end, 0, false));
        assert(path_views(found@) =~= found_before + extensions(path@, *end, 0, true));
    }
    while j < ops.len()
        invariant
            j <= 17,
            ops@ == SearchOperation::catalogue(),
            path@.len() >= 1,
            current_hexagram == path@.last().0,
            path_views(queue@) == queue_before + extensions(path@, *end, j as int, false),
            path_views(found@) == found_before + extensions(path@, *end, j as int, true),
        decreases 17 - j,
    {
        // Create a new hexagram with the given operation. Ignore it if it's already in the path.
        let operation = ops[j];
        let new_hexagram = operation.apply(&current_hexagram);
        if !path_visits(path, &new_hexagram) {
            // Create the new path and record it if it's the final hexagram. Otherwise, add the
            // new path to the queue.
            let mut new_path = copy_path(path);
            new_path.push((new_hexagram, operation));
            proof {
                assert(new_path@ == grown(path@, operation));
            }
            if new_hexagram.same(end) {
                proof {
                    assert(path_views(found@.push(new_path)) =~= path_views(found@).push(
                        new_path@,
                    ));
                }
                found.push(new_path);
            } else {
                proof {
                    assert(path_views(queue@.push(new_path)) =~= path_views(queue@).push(
                        new_path@,
                    ));
                }
                queue.push_back(new_path);
            }
        }
        proof {
            assert(path_views(queue@) =~= queue_before + extensions(
                path@,
                *end,
                j + 1,
                false,
            ));
            assert(path_views(found@) =~= found_before + extensions(path@, *end, j + 1, true));
        }
        j += 1;
    }
}

/// Between a hexagram and itself the path of no steps is the one shortest path.
proof fn lemma_no_steps(start: Hexagram, paths: Seq<Steps>, all: bool)
    requires
        paths.len() == 1,
        paths[0] == seq![(start, SearchOperation::NoOp)],
    ensures
        is_search_result(paths, start, start, all),
{
    assert forall|w: Steps|
        #[trigger] is_path(w, start, start) && w.len() == paths[0].len() implies paths.contains(
        w,
    ) && path_line_changes(w) == path_line_changes(paths[0]) by {
        assert(w =~= paths[0]);
    }
}

/// The paths that reach the end first are the shortest paths to it.
proof fn lemma_shortest(hits: Seq<Steps>, start: Hexagram, end: Hexagram, steps: int)
    requires
        is_hit_list(hits, start, end, steps),
        hits.len() > 0,
        steps + 1 <= 7,
        forall|w: Steps| #[trigger] is_path(w, start, end) && is_simple(w) ==> w.len() > steps,
    ensures
        is_search_result(hits, start, end, true),
{
    assert(is_hit(hits[0], start, end, steps));
    assert forall|i: int| 0 <= i < hits.len() implies is_path(#[trigger] hits[i], start, end)
        && hits[i].len() == hits[0].len() by {
        assert(is_hit(hits[i], start, end, steps));
    }
    assert forall|w: Steps| #[trigger] is_path(w, start, end) implies w.len() >= hits[0].len()
        && (w.len() == hits[0].len() ==> hits.contains(w)) by {
        let s = lemma_shortcut(w, start, end);
        assert(is_path(s, start, end) && is_simple(s));
        if w.len() == hits[0].len() {
            assert(is_hit(w, start, end, steps));
        }
    }
}

/// The least number of line changes is that of one of the paths, and no
/// path has fewer.
proof fn lemma_least(paths: Seq<Steps>)
    requires
        paths.len() > 0,
    ensures
        exists|j: int|
            0 <= j < paths.len() && capped(path_line_changes(#[trigger] paths[j]))
                == least_changes(paths),
        forall|j: int|
            0 <= j < paths.len() ==> least_changes(paths) <= capped(
                path_line_changes(#[trigger] paths[j]),
            ),
    decreases paths.len(),
{
    let rest = paths.drop_last();
    let last = paths.len() - 1;
    if rest.len() == 0 {
        assert(capped(path_line_changes(paths[last])) == least_changes(paths));
    } else {
        lemma_least(rest);
        let j = choose|j: int|
            0 <= j < rest.len() && capped(path_line_changes(#[trigger] rest[j])) == least_changes(
                rest,
            );
        if capped(path_line_changes(paths.last())) < least_changes(rest) {
            assert(capped(path_line_changes(paths[last])) == least_changes(paths));
        } else {
            assert(rest[j] == paths[j]);
            assert(capped(path_line_changes(paths[j])) == least_changes(paths));
        }
        assert forall|k: int| 0 <= k < paths.len() implies least_changes(paths) <= capped(
            path_line_changes(#[trigger] paths[k]),
        ) by {
            if k < last {
                assert(rest[k] == paths[k]);
            }
        }
    }
}

/// The paths with a given number of line changes are paths of the list, all
/// of them, and keep their order.
proof fn lemma_with_changes(paths: Seq<Steps>, changes: u64)
    ensures
        forall|x: int|
            0 <= x < with_changes(paths, changes).len() ==> paths.contains(
                #[trigger] with_changes(paths, changes)[x],
            ) && capped(path_line_changes(with_changes(paths, changes)[x])) == changes,
        forall|j: int|
            0 <= j < paths.len() && capped(path_line_changes(#[trigger] paths[j])) == changes
                ==> with_changes(paths, changes).contains(paths[j]),
        in_order(paths) ==> in_order(with_changes(paths, changes)),
    decreases paths.len(),
{
    let kept = with_changes(paths, changes);
    if paths.len() > 0 {
        let rest = paths.drop_last();
        let kept_rest = with_changes(rest, changes);
        let last = paths.len() - 1;
        lemma_with_changes(rest, changes);
        assert forall|x: int| 0 <= x < kept.len() implies paths.contains(#[trigger] kept[x])
            && capped(path_line_changes(kept[x])) == changes by {
            if x < kept_rest.len() {
                assert(kept[x] == kept_rest[x]);
                let j = choose|j: int| 0 <= j < rest.len() && rest[j] == kept_rest[x];
                assert(paths[j] == kept[x]);
            } else {
                assert(paths[last] == kept[x]);
            }
        }
        assert forall|j: int|
            0 <= j < paths.len() && capped(path_line_changes(#[trigger] paths[j]))
                == changes implies kept.contains(paths[j]) by {
            if j < last {
                assert(rest[j] == paths[j]);
                let x = choose|x: int| 0 <= x < kept_rest.len() && kept_rest[x] == rest[j];
                assert(kept[x] == paths[j]);
            } else {
                assert(kept[kept.len() - 1] == paths[j]);
            }
        }
        if in_order(paths) {
            assert(in_order(rest)) by {
                assert forall|a: int, b: int|
                    #![trigger rest[a], rest[b]]
                    0 <= a < b < rest.len() implies comes_before(rest[a], rest[b]) by {
                    assert(comes_before(paths[a], paths[b]));
                }
            }
            assert forall|a: int, b: int|
                #![trigger kept[a], kept[b]]
                0 <= a < b < kept.len() implies comes_before(kept[a], kept[b]) by {
                if b < kept_rest.len() {
                    assert(kept[a] == kept_rest[a] && kept[b] == kept_rest[b]);
                } else {
                    assert(kept[a] == kept_rest[a]);
                    let j = choose|j: int| 0 <= j < rest.len() && rest[j] == kept_rest[a];
                    assert(comes_before(paths[j], paths[last]));
                }
            }
        }
    }
}

/// Among all the shortest paths, those with the least number of line changes
/// are what a search returns that is not asked for all.
proof fn lemma_least_changed(found: Seq<Steps>, start: Hexagram, end: Hexagram)
    requires
        is_search_result(found, start, end, true),
    ensures
        is_search_result(with_changes(found, least_changes(found)), start, end, false),
{
    let least = least_changes(found);
    let kept = with_changes(found, least);
    lemma_least(found);
    lemma_with_changes(found, least);
    assert forall|j: int| 0 <= j < found.len() implies capped(
        path_line_changes(#[trigger] found[j]),
    ) == path_line_changes(found[j]) by {
        lemma_changes_not_negative(found[j]);
    }
    let j0 = choose|j: int|
        0 <= j < found.len() && capped(path_line_changes(#[trigger] found[j])) == least;
    assert(kept.contains(found[j0]));
    assert forall|i: int| 0 <= i < kept.len() implies is_path(#[trigger] kept[i], start, end)
        && kept[i].len() == found[0].len() && path_line_changes(kept[i]) == least by {
        assert(found.contains(kept[i]));
        let j = choose|j: int| 0 <= j < found.len() && found[j] == kept[i];
        assert(is_path(found[j], start, end));
    }
    assert(kept[0].len() == found[0].len());
    assert forall|w: Steps|
        #[trigger] is_path(w, start, end) && w.len() == kept[0].len() implies {
        &&& path_line_changes(w) >= path_line_changes(kept[0])
        &&& path_line_changes(w) == path_line_changes(kept[0]) <==> kept.contains(w)
    } by {
        assert(found.contains(w));
        let j = choose|j: int| 0 <= j < found.len() && found[j] == w;
        assert(capped(path_line_changes(found[j])) == path_line_changes(w));
        if kept.contains(w) {
            let x = choose|x: int| 0 <= x < kept.len() && kept[x] == w;
            assert(path_line_changes(kept[x]) == least);
        }
    }
}

/// Of two paths, at most one comes before the other.
pub proof fn lemma_order_one_way(x: Steps, y: Steps)
    requires
        comes_before(x, y),
    ensures
        !comes_before(y, x),
        x != y,
{
    if comes_before(y, x) {
        let i = choose|k: int|
            0 <= k < x.len() && k < y.len() && x.subrange(0, k) == y.subrange(0, k) && (
            #[trigger] x[k]).1.position() < y[k].1.position();
        let j = choose|k: int|
            0 <= k < y.len() && k < x.len() && y.subrange(0, k) == x.subrange(0, k) && (
            #[trigger] y[k]).1.position() < x[k].1.position();
        if i < j {
            assert(y.subrange(0, j)[i] == x.subrange(0, j)[i]);
        } else if j < i {
            assert(x.subrange(0, i)[j] == y.subrange(0, i)[j]);
        }
    }
}

/// Two lists in order that hold the same paths agree in their first `n` places.
proof fn lemma_same_places(a: Seq<Steps>, b: Seq<Steps>, n: int)
    requires
        in_order(a),
        in_order(b),
        forall|i: int| 0 <= i < a.len() ==> b.contains(#[trigger] a[i]),
        forall|i: int| 0 <= i < b.len() ==> a.contains(#[trigger] b[i]),
        0 <= n <= a.len(),
    ensures
        n <= b.len(),
        forall|i: int| 0 <= i < n ==> #[trigger] a[i] == b[i],
    decreases n,
{
    if n > 0 {
        lemma_same_places(a, b, n - 1);
        let i = n - 1;
        assert(b.contains(a[i]));
        let j = choose|j: int| 0 <= j < b.len() && b[j] == a[i];
        if j < i {
            assert(a[j] == b[j]);
            assert(comes_before(a[j], a[i]));
            lemma_order_one_way(a[j], a[i]);
        }
        assert(i < b.len());
        if j > i {
            assert(a.contains(b[i]));
            let k = choose|k: int| 0 <= k < a.len() && a[k] == b[i];
            if k < i {
                assert(a[k] == b[k]);
                assert(comes_before(b[k], b[i]));
                lemma_order_one_way(b[k], b[i]);
            } else if k > i {
                assert(comes_before(a[i], a[k]));
                assert(comes_before(b[i], b[j]));
                lemma_order_one_way(a[i], a[k]);
            }
        }
    }
}

/// A search has one result: two lists of paths that both are what a search
/// from `start` to `end` returns are the same list.
pub proof fn lemma_one_result(a: Seq<Steps>, b: Seq<Steps>, start: Hexagram, end: Hexagram, all: bool)
    requires
        is_search_result(a, start, end, all),
        is_search_result(b, start, end, all),
    ensures
        a == b,
{
    assert(is_path(a[0], start, end) && is_path(b[0], start, end));
    assert(a[0].len() == b[0].len());
    assert forall|i: int| 0 <= i < a.len() implies b.contains(#[trigger] a[i]) by {
        assert(is_path(a[i], start, end));
        if !all {
            assert(path_line_changes(a[i]) == path_line_changes(a[0]));
        }
    }
    assert forall|i: int| 0 <= i < b.len() implies a.contains(#[trigger] b[i]) by {
        assert(is_path(b[i], start, end));
        if !all {
            assert(path_line_changes(b[i]) == path_line_changes(b[0]));
        }
    }
    lemma_same_places(a, b, a.len() as int);
    lemma_same_places(b, a, b.len() as int);
    assert(a =~= b);
}

/// Without `all`, a shortest path that a search leaves out has more line
/// changes than the paths that it returns.
pub proof fn lemma_left_out(paths: Seq<Steps>, start: Hexagram, end: Hexagram, w: Steps)
    requires
        is_search_result(paths, start, end, false),
        is_path(w, start, end),
        w.len() == paths[0].len(),
        !paths.contains(w),
    ensures
        forall|i: int|
            0 <= i < paths.len() ==> path_line_changes(w) > path_line_changes(#[trigger] paths[i]),
{
}

} // verus!
