//! Paths through the graph whose nodes are the hexagrams and whose edges are
//! the operations of the catalogue.
//!
//! A path lists the hexagrams it passes, each with the operation that led to
//! it; the first entry is the hexagram the path starts from, labelled `NoOp`.

use crate::hexagram::{
    flipped_at, lemma_every_pattern_catalogued, lemma_with_lines, line_changes, Hexagram,
    HexagramLine,
};
use crate::line::Line;
use crate::operation::SearchOperation;
use vstd::prelude::*;

verus! {

/// A path between two hexagrams, containing the hexagrams and operations to transform them.
pub type Path = Vec<(Hexagram, SearchOperation)>;

/// The entries of a path, as a sequence.
pub type Steps = Seq<(Hexagram, SearchOperation)>;

/// The entry at index `k` follows from the entry before it: its operation
/// belongs to the catalogue and makes its hexagram of the one before.
pub open spec fn follows(w: Steps, k: int) -> bool {
    !(w[k].1 is NoOp) && w[k].0 == w[k].1.applied(w[k - 1].0)
}

/// `w` is a path that starts from `start`.
pub open spec fn is_path_from(w: Steps, start: Hexagram) -> bool {
    &&& w.len() >= 1
    &&& w[0] == (start, SearchOperation::NoOp)
    &&& forall|k: int| 1 <= k < w.len() ==> #[trigger] follows(w, k)
}

/// `w` is a path that starts from `start` and ends at `end`.
pub open spec fn is_path(
    w: Steps,
    start: Hexagram,
    end: Hexagram,
) -> bool {
    is_path_from(w, start) && w.last().0 == end
}

/// The path passes the hexagram `h`.
pub open spec fn visits(w: Steps, h: Hexagram) -> bool {
    exists|k: int| 0 <= k < w.len() && (#[trigger] w[k]).0 == h
}

/// The path passes no hexagram twice.
pub open spec fn is_simple(w: Steps) -> bool {
    forall|a: int, b: int|
        #![trigger w[a], w[b]]
        0 <= a < b < w.len() ==> w[a].0 != w[b].0
}

/// The total number of line changes along the path: for each step, the
/// number of lines in which its hexagram differs from the one before.
pub open spec fn path_line_changes(w: Steps) -> int
    decreases w.len(),
{
    if w.len() <= 1 {
        0
    } else {
        path_line_changes(w.drop_last()) + line_changes(
            w[w.len() - 1].0.lines@,
            w[w.len() - 2].0.lines@,
        )
    }
}

/// Of two paths of one length from one hexagram, `a` comes first: where they
/// part, the operation of `a` stands earlier in the catalogue.
pub open spec fn comes_before(
    a: Steps,
    b: Steps,
) -> bool {
    exists|k: int|
        0 <= k < a.len() && k < b.len() && a.subrange(0, k) == b.subrange(0, k) && (#[trigger] a[k]).1.position()
            < b[k].1.position()
}

/// A count that no longer grows once it has reached the largest `u64`.
pub open spec fn capped(n: int) -> u64 {
    if n >= u64::MAX {
        u64::MAX
    } else if n < 0 {
        0
    } else {
        n as u64
    }
}

/// Counts the total number of line changes in a path between two hexagrams.
/// The count stops at the largest `u64`.
pub fn count_line_changes(path: &Path) -> (count: u64)
    ensures
        count == capped(path_line_changes(path@)),
{
    let mut count: u64 = 0;
    if path.len() == 0 {
        return count;
    }
    let mut i: usize = 1;
    while i < path.len()
        invariant
            1 <= i <= path@.len(),
            count == capped(path_line_changes(path@.subrange(0, i as int))),
        decreases path@.len() - i,
    {
        let changes = path[i].0.num_line_changes(&path[i - 1].0);
        proof {
            let longer = path@.subrange(0, i + 1);
            assert(longer.drop_last() =~= path@.subrange(0, i as int));
            lemma_changes_not_negative(path@.subrange(0, i as int));
        }
        count = count.saturating_add(changes as u64);
        i += 1;
    }
    proof {
        assert(path@.subrange(0, i as int) =~= path@);
    }
    count
}

/// The line changes of a path are never negative, and at most six for each step.
pub proof fn lemma_changes_not_negative(w: Steps)
    ensures
        0 <= path_line_changes(w),
        w.len() >= 1 ==> path_line_changes(w) <= 6 * (w.len() - 1),
    decreases w.len(),
{
    if w.len() > 1 {
        lemma_changes_not_negative(w.drop_last());
    }
}

/// The beginning of a path is a path; it passes no hexagram twice and avoids
/// a hexagram where the whole path does.
pub proof fn lemma_prefix(w: Steps, start: Hexagram, n: int)
    requires
        is_path_from(w, start),
        1 <= n <= w.len(),
    ensures
        is_path_from(w.subrange(0, n), start),
        is_simple(w) ==> is_simple(w.subrange(0, n)),
        forall|h: Hexagram| !visits(w, h) ==> !visits(w.subrange(0, n), h),
{
    let p = w.subrange(0, n);
    assert forall|k: int| 1 <= k < p.len() implies #[trigger] follows(p, k) by {
        assert(follows(w, k));
    }
    if is_simple(w) {
        assert forall|a: int, b: int|
            #![trigger p[a], p[b]]
            0 <= a < b < p.len() implies p[a].0 != p[b].0 by {
            assert(w[a].0 != w[b].0);
        }
    }
    assert forall|h: Hexagram| !visits(w, h) implies !visits(p, h) by {
        if visits(p, h) {
            let k = choose|k: int| 0 <= k < p.len() && (#[trigger] p[k]).0 == h;
            assert(w[k].0 == h);
        }
    }
}

/// A path grows by one step: an operation of the catalogue and the hexagram
/// that it makes of the last one.
pub proof fn lemma_extend(
    p: Steps,
    start: Hexagram,
    op: SearchOperation,
)
    requires
        is_path_from(p, start),
        !(op is NoOp),
    ensures
        is_path_from(p.push((op.applied(p.last().0), op)), start),
        is_simple(p) && !visits(p, op.applied(p.last().0)) ==> is_simple(
            p.push((op.applied(p.last().0), op)),
        ),
        forall|h: Hexagram|
            !visits(p, h) && op.applied(p.last().0) != h ==> !visits(
                p.push((op.applied(p.last().0), op)),
                h,
            ),
        visits(p.push((op.applied(p.last().0), op)), op.applied(p.last().0)),
{
    let next = op.applied(p.last().0);
    let w = p.push((next, op));
    assert forall|k: int| 1 <= k < w.len() implies #[trigger] follows(w, k) by {
        if k < p.len() {
            assert(follows(p, k));
        }
    }
    if is_simple(p) && !visits(p, next) {
        assert forall|a: int, b: int|
            #![trigger w[a], w[b]]
            0 <= a < b < w.len() implies w[a].0 != w[b].0 by {
            if b < p.len() {
                assert(p[a].0 != p[b].0);
            } else {
                assert(p[a].0 != next);
            }
        }
    }
    assert forall|h: Hexagram| !visits(p, h) && next != h implies !visits(w, h) by {
        if visits(w, h) {
            let k = choose|k: int| 0 <= k < w.len() && (#[trigger] w[k]).0 == h;
            if k < p.len() {
                assert(p[k].0 == h);
            }
        }
    }
    assert(w[p.len() as int].0 == next);
}

/// A path is its beginning and its last step; the last step is decided by
/// its operation.
pub proof fn lemma_last_step(w: Steps, start: Hexagram)
    requires
        is_path_from(w, start),
        w.len() >= 2,
    ensures
        !(w.last().1 is NoOp),
        w == w.drop_last().push((w.last().1.applied(w.drop_last().last().0), w.last().1)),
{
    assert(follows(w, w.len() - 1));
    assert(w =~= w.drop_last().push(w.last()));
}

/// Where a path passes a hexagram twice, a shorter path has the same ends;
/// so among the paths between two hexagrams there is one that is no longer
/// than a given one and passes no hexagram twice.
pub proof fn lemma_shortcut(w: Steps, start: Hexagram, end: Hexagram) -> (s:
    Steps)
    requires
        is_path(w, start, end),
    ensures
        is_path(s, start, end),
        is_simple(s),
        s.len() <= w.len(),
        !is_simple(w) ==> s.len() < w.len(),
    decreases w.len(),
{
    if is_simple(w) {
        w
    } else {
        let (a, b) = choose|a: int, b: int|
            #![trigger w[a], w[b]]
            0 <= a < b < w.len() && w[a].0 == w[b].0;
        let cut = w.subrange(0, a + 1) + w.subrange(b + 1, w.len() as int);
        assert forall|k: int| 1 <= k < cut.len() implies #[trigger] follows(cut, k) by {
            if k <= a {
                assert(follows(w, k));
            } else {
                assert(follows(w, k + (b - a)));
            }
        }
        lemma_shortcut(cut, start, end)
    }
}

/// The position in a hexagram that has the given array index.
pub open spec fn line_at(i: int) -> HexagramLine {
    if i == 0 {
        HexagramLine::First
    } else if i == 1 {
        HexagramLine::Second
    } else if i == 2 {
        HexagramLine::Third
    } else if i == 3 {
        HexagramLine::Fourth
    } else if i == 4 {
        HexagramLine::Fifth
    } else {
        HexagramLine::Sixth
    }
}

/// The lines of `to` at the first `k` places, and those of `from` above them.
pub open spec fn partly_changed(from: Seq<Line>, to: Seq<Line>, k: int) -> Seq<Line> {
    Seq::new(
        6,
        |i: int|
            if i < k {
                to[i]
            } else {
                from[i]
            },
    )
}

/// Inverting, from the bottom up, each of the first `k` lines in which
/// `start` differs from `end` is a path of at most `k` steps.
pub proof fn lemma_invert_lines(start: Hexagram, end: Hexagram, k: int) -> (w: Steps)
    requires
        start.is_catalogued(),
        0 <= k <= 6,
    ensures
        is_path_from(w, start),
        w.last().0 == Hexagram::with_lines(partly_changed(start.lines@, end.lines@, k)),
        w.len() <= k + 1,
    decreases k,
{
    if k == 0 {
        assert(partly_changed(start.lines@, end.lines@, 0) =~= start.lines@);
        lemma_with_lines(start);
        let w = seq![(start, SearchOperation::NoOp)];
        w
    } else {
        let p = lemma_invert_lines(start, end, k - 1);
        let before = partly_changed(start.lines@, end.lines@, k - 1);
        let after = partly_changed(start.lines@, end.lines@, k);
        if start.lines@[k - 1] == end.lines@[k - 1] {
            assert(after =~= before);
            p
        } else {
            let op = SearchOperation::InverseLine(line_at(k - 1));
            lemma_every_pattern_catalogued(before);
            assert(after =~= flipped_at(before, k - 1));
            lemma_extend(p, start, op);
            p.push((op.applied(p.last().0), op))
        }
    }
}

/// Any hexagram of the list can be turned into any other by at most six
/// operations.
pub proof fn lemma_connected(start: Hexagram, end: Hexagram) -> (w: Steps)
    requires
        start.is_catalogued(),
        end.is_catalogued(),
    ensures
        is_path(w, start, end),
        w.len() <= 7,
{
    let w = lemma_invert_lines(start, end, 6);
    assert(partly_changed(start.lines@, end.lines@, 6) =~= end.lines@);
    lemma_with_lines(end);
    w
}

} // verus!
