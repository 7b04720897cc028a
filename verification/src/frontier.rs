//! How a breadth-first search grows its paths, one level at a time.
//!
//! The paths of one level are those from the start that have a given number
//! of steps, pass no hexagram twice and have not reached the end. Trying on
//! each of them every operation of the catalogue, in order, gives the paths of
//! the next level and the paths that reach the end with one step more.

use crate::hexagram::Hexagram;
use crate::operation::{lemma_position, lemma_position_decides, SearchOperation};
use crate::path::{
    comes_before, is_path, is_path_from, is_simple, lemma_extend, lemma_last_step, lemma_prefix,
    visits, Steps,
};
use vstd::prelude::*;

verus! {

/// The path `p` with one step more: the operation `op` and the hexagram that
/// it makes of the last one.
pub open spec fn grown(p: Steps, op: SearchOperation) -> Steps {
    p.push((op.applied(p.last().0), op))
}

/// Whether a search for `end` keeps the path that `op` adds to `p`: the new
/// hexagram is not yet on `p`, and it is `end` exactly if `hit` is set.
pub open spec fn admits(p: Steps, op: SearchOperation, end: Hexagram, hit: bool) -> bool {
    !visits(p, op.applied(p.last().0)) && ((op.applied(p.last().0) == end) == hit)
}

/// The paths that the first `n` operations of the catalogue add to `p`, in
/// the order of the catalogue: those that reach `end` if `hit` is set, and
/// the others if it is not.
pub open spec fn extensions(p: Steps, end: Hexagram, n: int, hit: bool) -> Seq<Steps>
    decreases n,
{
    if n <= 0 {
        Seq::empty()
    } else {
        let rest = extensions(p, end, n - 1, hit);
        let op = SearchOperation::catalogue()[n - 1];
        if admits(p, op, end, hit) {
            rest.push(grown(p, op))
        } else {
            rest
        }
    }
}

/// The extensions of the first `n` paths of `level`, one path after the other.
pub open spec fn expanded(level: Seq<Steps>, end: Hexagram, n: int, hit: bool) -> Seq<Steps>
    decreases n,
{
    if n <= 0 {
        Seq::empty()
    } else {
        expanded(level, end, n - 1, hit) + extensions(level[n - 1], end, 17, hit)
    }
}

/// `w` is a path of `steps` steps from `start` that passes no hexagram twice
/// and does not pass `end`.
pub open spec fn is_open(w: Steps, start: Hexagram, end: Hexagram, steps: int) -> bool {
    is_path_from(w, start) && w.len() == steps + 1 && is_simple(w) && !visits(w, end)
}

/// `w` is a path of `steps` steps from `start` to `end` that passes no
/// hexagram twice.
pub open spec fn is_hit(w: Steps, start: Hexagram, end: Hexagram, steps: int) -> bool {
    is_path(w, start, end) && w.len() == steps + 1 && is_simple(w)
}

/// Each path of the list comes before those behind it.
pub open spec fn in_order(paths: Seq<Steps>) -> bool {
    forall|a: int, b: int|
        #![trigger paths[a], paths[b]]
        0 <= a < b < paths.len() ==> comes_before(paths[a], paths[b])
}

/// `level` holds exactly the open paths of `steps` steps, in order.
pub open spec fn is_level(level: Seq<Steps>, start: Hexagram, end: Hexagram, steps: int) -> bool {
    &&& forall|c: int| 0 <= c < level.len() ==> is_open(#[trigger] level[c], start, end, steps)
    &&& forall|w: Steps| #[trigger] is_open(w, start, end, steps) ==> level.contains(w)
    &&& in_order(level)
}

/// `hits` holds exactly the paths of `steps` steps from `start` to `end`
/// that pass no hexagram twice, in order.
pub open spec fn is_hit_list(hits: Seq<Steps>, start: Hexagram, end: Hexagram, steps: int) -> bool {
    &&& forall|c: int| 0 <= c < hits.len() ==> is_hit(#[trigger] hits[c], start, end, steps)
    &&& forall|w: Steps| #[trigger] is_hit(w, start, end, steps) ==> hits.contains(w)
    &&& in_order(hits)
}

/// The path `e` is one of `level[c]`, for a `c` below `n`, with one step more
/// that a search for `end` keeps.
pub open spec fn stems_from(e: Steps, level: Seq<Steps>, n: int, end: Hexagram, hit: bool) -> bool {
    exists|c: int|
        0 <= c < n && !(e.last().1 is NoOp) && admits(#[trigger] level[c], e.last().1, end, hit)
            && e == grown(level[c], e.last().1)
}

/// What the extensions of one path are: each is the path with one admitted
/// step more, each admitted step is there, and they stand in the order of
/// the catalogue.
pub proof fn lemma_extensions(p: Steps, end: Hexagram, n: int, hit: bool)
    requires
        0 <= n <= 17,
    ensures
        forall|x: int|
            0 <= x < extensions(p, end, n, hit).len() ==> {
                let e = #[trigger] extensions(p, end, n, hit)[x];
                &&& 0 <= e.last().1.position() < n
                &&& admits(p, e.last().1, end, hit)
                &&& e == grown(p, e.last().1)
            },
        forall|op: SearchOperation|
            0 <= op.position() < n && admits(p, op, end, hit) ==> extensions(
                p,
                end,
                n,
                hit,
            ).contains(#[trigger] grown(p, op)),
        forall|a: int, b: int|
            #![trigger extensions(p, end, n, hit)[a], extensions(p, end, n, hit)[b]]
            0 <= a < b < extensions(p, end, n, hit).len() ==> extensions(
                p,
                end,
                n,
                hit,
            )[a].last().1.position() < extensions(p, end, n, hit)[b].last().1.position(),
    decreases n,
{
    let ext = extensions(p, end, n, hit);
    if n > 0 {
        let rest = extensions(p, end, n - 1, hit);
        let last_op = SearchOperation::catalogue()[n - 1];
        lemma_extensions(p, end, n - 1, hit);
        lemma_catalogue_place(n - 1);
        assert forall|x: int| 0 <= x < ext.len() implies {
            let e = #[trigger] ext[x];
            &&& 0 <= e.last().1.position() < n
            &&& admits(p, e.last().1, end, hit)
            &&& e == grown(p, e.last().1)
        } by {
            if x < rest.len() {
                assert(ext[x] == rest[x]);
            }
        }
        assert forall|op: SearchOperation|
            0 <= op.position() < n && admits(p, op, end, hit) implies ext.contains(
            #[trigger] grown(p, op),
        ) by {
            if op.position() < n - 1 {
                let x = choose|x: int| 0 <= x < rest.len() && rest[x] == grown(p, op);
                assert(ext[x] == grown(p, op));
            } else {
                lemma_position_decides(op, last_op);
                assert(ext[ext.len() - 1] == grown(p, op));
            }
        }
        assert forall|a: int, b: int|
            #![trigger ext[a], ext[b]]
            0 <= a < b < ext.len() implies ext[a].last().1.position() < ext[b].last().1.position() by {
            assert(ext[a] == rest[a]);
            if b < rest.len() {
                assert(ext[b] == rest[b]);
            }
        }
    }
}

/// The operation at a place of the catalogue has that place.
pub proof fn lemma_catalogue_place(j: int)
    requires
        0 <= j < 17,
    ensures
        SearchOperation::catalogue()[j].position() == j,
        !(SearchOperation::catalogue()[j] is NoOp),
{
}

/// Two paths that part within `p` and `q` part in the same way when each has
/// one step more.
pub proof fn lemma_order_kept(p: Steps, q: Steps, x: (Hexagram, SearchOperation), y: (
    Hexagram,
    SearchOperation,
))
    requires
        comes_before(p, q),
    ensures
        comes_before(p.push(x), q.push(y)),
{
    let k = choose|k: int|
        0 <= k < p.len() && k < q.len() && p.subrange(0, k) == q.subrange(0, k) && (
        #[trigger] p[k]).1.position() < q[k].1.position();
    let pp = p.push(x);
    let qq = q.push(y);
    assert(pp.subrange(0, k) =~= p.subrange(0, k));
    assert(qq.subrange(0, k) =~= q.subrange(0, k));
    assert(pp[k].1.position() < qq[k].1.position());
}

/// Of two extensions of one path, the one by the earlier operation comes first.
pub proof fn lemma_order_of_steps(p: Steps, a: SearchOperation, b: SearchOperation)
    requires
        a.position() < b.position(),
    ensures
        comes_before(grown(p, a), grown(p, b)),
{
    let pa = grown(p, a);
    let pb = grown(p, b);
    let k = p.len() as int;
    assert(pa.subrange(0, k) =~= p);
    assert(pb.subrange(0, k) =~= p);
    assert(pa[k].1.position() < pb[k].1.position());
}

/// What the extensions of the first `n` paths of a level are: each stems
/// from one of these paths, each admitted step of each of them is there, and
/// they stand in order where the level does.
pub proof fn lemma_expanded(level: Seq<Steps>, end: Hexagram, n: int, hit: bool)
    requires
        0 <= n <= level.len(),
    ensures
        forall|x: int|
            0 <= x < expanded(level, end, n, hit).len() ==> stems_from(
                #[trigger] expanded(level, end, n, hit)[x],
                level,
                n,
                end,
                hit,
            ),
        forall|c: int, op: SearchOperation|
            0 <= c < n && !(op is NoOp) && admits(level[c], op, end, hit) ==> expanded(
                level,
                end,
                n,
                hit,
            ).contains(#[trigger] grown(level[c], op)),
        in_order(level) ==> in_order(expanded(level, end, n, hit)),
    decreases n,
{
    let all = expanded(level, end, n, hit);
    if n > 0 {
        let before = expanded(level, end, n - 1, hit);
        let p = level[n - 1];
        let ext = extensions(p, end, 17, hit);
        lemma_expanded(level, end, n - 1, hit);
        lemma_extensions(p, end, 17, hit);
        assert forall|x: int| 0 <= x < all.len() implies stems_from(
            #[trigger] all[x],
            level,
            n,
            end,
            hit,
        ) by {
            let e = all[x];
            if x < before.len() {
                assert(e == before[x]);
                assert(stems_from(e, level, n - 1, end, hit));
                let c = choose|c: int|
                    0 <= c < n - 1 && !(e.last().1 is NoOp) && admits(
                        #[trigger] level[c],
                        e.last().1,
                        end,
                        hit,
                    ) && e == grown(level[c], e.last().1);
                assert(0 <= c < n && admits(level[c], e.last().1, end, hit));
            } else {
                assert(e == ext[x - before.len()]);
                lemma_position(e.last().1);
                assert(admits(level[n - 1], e.last().1, end, hit));
            }
        }
        assert forall|c: int, op: SearchOperation|
            0 <= c < n && !(op is NoOp) && admits(level[c], op, end, hit) implies all.contains(
            #[trigger] grown(level[c], op),
        ) by {
            let g = grown(level[c], op);
            if c < n - 1 {
                assert(before.contains(g));
                let x = choose|x: int| 0 <= x < before.len() && before[x] == g;
                assert(all[x] == g);
            } else {
                lemma_position(op);
                assert(ext.contains(g));
                let x = choose|x: int| 0 <= x < ext.len() && ext[x] == g;
                assert(all[before.len() + x] == g);
            }
        }
        if in_order(level) {
            assert forall|a: int, b: int|
                #![trigger all[a], all[b]]
                0 <= a < b < all.len() implies comes_before(all[a], all[b]) by {
                if b < before.len() {
                    assert(all[a] == before[a] && all[b] == before[b]);
                } else if a >= before.len() {
                    let ea = ext[a - before.len()];
                    let eb = ext[b - before.len()];
                    assert(all[a] == ea && all[b] == eb);
                    lemma_order_of_steps(p, ea.last().1, eb.last().1);
                } else {
                    let ea = before[a];
                    let eb = ext[b - before.len()];
                    assert(all[a] == ea && all[b] == eb);
                    assert(stems_from(ea, level, n - 1, end, hit));
                    let c = choose|c: int|
                        0 <= c < n - 1 && !(ea.last().1 is NoOp) && admits(
                            #[trigger] level[c],
                            ea.last().1,
                            end,
                            hit,
                        ) && ea == grown(level[c], ea.last().1);
                    assert(comes_before(level[c], level[n - 1]));
                    lemma_order_kept(level[c], p, ea.last(), eb.last());
                }
            }
        }
    }
}

/// From the open paths of one level come, by one step more, the open paths
/// of the next level and the paths that reach the end.
pub proof fn lemma_next_level(level: Seq<Steps>, start: Hexagram, end: Hexagram, steps: int)
    requires
        is_level(level, start, end, steps),
        steps >= 0,
    ensures
        is_level(expanded(level, end, level.len() as int, false), start, end, steps + 1),
        is_hit_list(expanded(level, end, level.len() as int, true), start, end, steps + 1),
{
    let n = level.len() as int;
    let next = expanded(level, end, n, false);
    let hits = expanded(level, end, n, true);
    lemma_expanded(level, end, n, false);
    lemma_expanded(level, end, n, true);
    assert forall|c: int| 0 <= c < next.len() implies is_open(
        #[trigger] next[c],
        start,
        end,
        steps + 1,
    ) by {
        let e = next[c];
        assert(stems_from(e, level, n, end, false));
        let k = choose|k: int|
            0 <= k < n && !(e.last().1 is NoOp) && admits(
                #[trigger] level[k],
                e.last().1,
                end,
                false,
            ) && e == grown(level[k], e.last().1);
        assert(is_open(level[k], start, end, steps));
        lemma_extend(level[k], start, e.last().1);
    }
    assert forall|c: int| 0 <= c < hits.len() implies is_hit(
        #[trigger] hits[c],
        start,
        end,
        steps + 1,
    ) by {
        let e = hits[c];
        assert(stems_from(e, level, n, end, true));
        let k = choose|k: int|
            0 <= k < n && !(e.last().1 is NoOp) && admits(
                #[trigger] level[k],
                e.last().1,
                end,
                true,
            ) && e == grown(level[k], e.last().1);
        assert(is_open(level[k], start, end, steps));
        lemma_extend(level[k], start, e.last().1);
    }
    assert forall|w: Steps| #[trigger] is_open(w, start, end, steps + 1) implies next.contains(
        w,
    ) by {
        lemma_one_step_back(level, start, end, steps, w, false);
    }
    assert forall|w: Steps| #[trigger] is_hit(w, start, end, steps + 1) implies hits.contains(
        w,
    ) by {
        lemma_one_step_back(level, start, end, steps, w, true);
    }
}

/// A path of one step more than a level, without a hexagram passed twice,
/// is an extension of a path of the level.
pub proof fn lemma_one_step_back(
    level: Seq<Steps>,
    start: Hexagram,
    end: Hexagram,
    steps: int,
    w: Steps,
    hit: bool,
)
    requires
        is_level(level, start, end, steps),
        steps >= 0,
        is_path_from(w, start),
        w.len() == steps + 2,
        is_simple(w),
        hit ==> w.last().0 == end,
        !hit ==> !visits(w, end),
    ensures
        expanded(level, end, level.len() as int, hit).contains(w),
{
    let p = w.drop_last();
    let op = w.last().1;
    let last = w.len() - 1;
    assert(p =~= w.subrange(0, steps + 1));
    lemma_prefix(w, start, steps + 1);
    lemma_last_step(w, start);
    assert(!visits(p, w.last().0)) by {
        if visits(p, w.last().0) {
            let k = choose|k: int| 0 <= k < p.len() && (#[trigger] p[k]).0 == w.last().0;
            assert(w[k].0 != w[last].0);
        }
    }
    if hit {
        assert(!visits(p, end));
    } else {
        assert(w.last().0 != end) by {
            if w.last().0 == end {
                assert(w[last].0 == end);
            }
        }
    }
    assert(is_open(p, start, end, steps));
    assert(level.contains(p));
    let c = choose|c: int| 0 <= c < level.len() && level[c] == p;
    lemma_expanded(level, end, level.len() as int, hit);
    assert(w == grown(level[c], op));
}

/// The path of no steps is the only open path of no steps; where the start
/// is not the end, it does not reach the end.
pub proof fn lemma_first_level(start: Hexagram, end: Hexagram)
    requires
        start != end,
    ensures
        is_level(seq![seq![(start, SearchOperation::NoOp)]], start, end, 0),
        forall|w: Steps| #[trigger] is_path(w, start, end) && is_simple(w) ==> w.len() > 1,
{
    let only = seq![(start, SearchOperation::NoOp)];
    let level = seq![only];
    assert(!visits(only, end)) by {
        if visits(only, end) {
            let k = choose|k: int| 0 <= k < only.len() && (#[trigger] only[k]).0 == end;
        }
    }
    assert(is_open(level[0], start, end, 0));
    assert forall|w: Steps| #[trigger] is_open(w, start, end, 0) implies level.contains(w) by {
        assert(w =~= only);
        assert(level[0] == w);
    }
}

/// Each extension of a path of a level has one step more than the level.
pub proof fn lemma_expanded_length(
    level: Seq<Steps>,
    start: Hexagram,
    end: Hexagram,
    steps: int,
    n: int,
    hit: bool,
)
    requires
        is_level(level, start, end, steps),
        0 <= n <= level.len(),
    ensures
        forall|x: int|
            0 <= x < expanded(level, end, n, hit).len() ==> (#[trigger] expanded(
                level,
                end,
                n,
                hit,
            )[x]).len() == steps + 2,
{
    let all = expanded(level, end, n, hit);
    lemma_expanded(level, end, n, hit);
    assert forall|x: int| 0 <= x < all.len() implies (#[trigger] all[x]).len() == steps + 2 by {
        let e = all[x];
        assert(stems_from(e, level, n, end, hit));
        let c = choose|c: int|
            0 <= c < n && !(e.last().1 is NoOp) && admits(
                #[trigger] level[c],
                e.last().1,
                end,
                hit,
            ) && e == grown(level[c], e.last().1);
        assert(is_open(level[c], start, end, steps));
    }
}

/// Where some path reaches the end and a level has no open path behind it,
/// the level has a path that reaches the end with one step more.
pub proof fn lemma_goal_is_found(
    level: Seq<Steps>,
    start: Hexagram,
    end: Hexagram,
    steps: int,
    goal: Steps,
)
    requires
        is_level(level, start, end, steps),
        steps >= 0,
        is_path(goal, start, end),
        is_simple(goal),
        goal.len() > steps + 1,
        expanded(level, end, level.len() as int, false).len() == 0,
    ensures
        expanded(level, end, level.len() as int, true).len() > 0,
{
    if goal.len() == steps + 2 {
        lemma_one_step_back(level, start, end, steps, goal, true);
    } else {
        let w = goal.subrange(0, steps + 2);
        lemma_prefix(goal, start, steps + 2);
        assert(!visits(w, end)) by {
            if visits(w, end) {
                let k = choose|k: int| 0 <= k < w.len() && (#[trigger] w[k]).0 == end;
                assert(goal[k].0 != goal[goal.len() - 1].0);
            }
        }
        lemma_one_step_back(level, start, end, steps, w, false);
    }
}

} // verus!
