//! Dependency graphs over task names: what a cycle is, and why a graph that can be
//! ordered has none while one that cannot be ordered has one.

use crate::text::{distinct, index_of, lemma_index_of, lemma_index_of_distinct};
use vstd::prelude::*;

verus! {

/// Whether `names[j]` occurs a second time, after an earlier occurrence.
pub open spec fn repeats_earlier(names: Seq<Seq<char>>, j: int) -> bool {
    exists|i: int| 0 <= i < j && names[i] == names[j]
}

/// Whether every dependency names a task.
pub open spec fn all_known(names: Seq<Seq<char>>, deps: Seq<Seq<Seq<char>>>) -> bool {
    forall|i: int, k: int|
        0 <= i < deps.len() && 0 <= k < deps[i].len() ==> names.contains(#[trigger] deps[i][k])
}

/// Whether task `i` names task `j` among its dependencies.
pub open spec fn depends_on(
    names: Seq<Seq<char>>,
    deps: Seq<Seq<Seq<char>>>,
    i: int,
    j: int,
) -> bool {
    &&& 0 <= i < names.len()
    &&& 0 <= j < names.len()
    &&& i < deps.len()
    &&& deps[i].contains(names[j])
}

/// Whether `walk` is a dependency cycle: a list of tasks, each depending on the next, that
/// comes back to where it started. A task that depends on itself is the cycle `[t, t]`.
pub open spec fn is_cycle(names: Seq<Seq<char>>, deps: Seq<Seq<Seq<char>>>, walk: Seq<int>) -> bool {
    &&& walk.len() >= 2
    &&& walk[0] == walk[walk.len() - 1]
    &&& forall|k: int| 0 <= k < walk.len() - 1 ==> #[trigger] follows(names, deps, walk, k)
}

/// Whether the task at position `k` of `walk` depends on the one after it.
pub open spec fn follows(
    names: Seq<Seq<char>>,
    deps: Seq<Seq<Seq<char>>>,
    walk: Seq<int>,
    k: int,
) -> bool {
    depends_on(names, deps, walk[k], walk[k + 1])
}

/// Whether the graph has no dependency cycle.
pub open spec fn acyclic(names: Seq<Seq<char>>, deps: Seq<Seq<Seq<char>>>) -> bool {
    forall|walk: Seq<int>| !is_cycle(names, deps, walk)
}

/// Whether `rank` orders the tasks so that each comes after all it depends on.
pub open spec fn orders(names: Seq<Seq<char>>, deps: Seq<Seq<Seq<char>>>, rank: Seq<int>) -> bool {
    &&& rank.len() == names.len()
    &&& forall|i: int, j: int| depends_on(names, deps, i, j) ==> rank[j] < rank[i]
}

/// A graph that can be ordered has no cycle: along a walk the rank only falls, so no walk
/// comes back to its start.
pub proof fn lemma_ordered_is_acyclic(
    names: Seq<Seq<char>>,
    deps: Seq<Seq<Seq<char>>>,
    rank: Seq<int>,
)
    requires
        orders(names, deps, rank),
    ensures
        acyclic(names, deps),
{
    assert forall|walk: Seq<int>| !is_cycle(names, deps, walk) by {
        if is_cycle(names, deps, walk) {
            lemma_rank_falls(names, deps, rank, walk, walk.len() - 1);
        }
    }
}

proof fn lemma_rank_falls(
    names: Seq<Seq<char>>,
    deps: Seq<Seq<Seq<char>>>,
    rank: Seq<int>,
    walk: Seq<int>,
    k: int,
)
    requires
        orders(names, deps, rank),
        0 <= k < walk.len(),
        forall|m: int| 0 <= m < walk.len() - 1 ==> #[trigger] follows(names, deps, walk, m),
    ensures
        rank[walk[k]] <= rank[walk[0]] - k,
    decreases k,
{
    if k > 0 {
        lemma_rank_falls(names, deps, rank, walk, k - 1);
        assert(follows(names, deps, walk, k - 1));
    }
}

/// Among more values than there are numbers below `bound`, all of them below `bound`, two
/// are equal.
pub proof fn lemma_pigeonhole(values: Seq<int>, bound: nat) -> (pair: (int, int))
    requires
        values.len() > bound,
        forall|i: int| 0 <= i < values.len() ==> 0 <= #[trigger] values[i] < bound,
    ensures
        0 <= pair.0 < pair.1 < values.len(),
        values[pair.0] == values[pair.1],
    decreases bound,
{
    if bound == 0 {
        let first = values[0];
        assert(0 <= first && first < bound);
        (0, 0)
    } else {
        let last = values.len() - 1;
        let top = values[last];
        if exists|i: int| 0 <= i < last && values[i] == top {
            let i = choose|i: int| 0 <= i < last && values[i] == top;
            (i, last)
        } else {
            let squeezed = Seq::new(
                last as nat,
                |i: int|
                    if values[i] > top {
                        values[i] - 1
                    } else {
                        values[i]
                    },
            );
            assert forall|i: int| 0 <= i < squeezed.len() implies 0 <= #[trigger] squeezed[i] < (
            bound - 1) as nat by {
                assert(0 <= values[i] < bound);
                assert(values[i] != top);
                assert(0 <= values[last] < bound);
            }
            let (a, b) = lemma_pigeonhole(squeezed, (bound - 1) as nat);
            assert(values[a] != top && values[b] != top);
            (a, b)
        }
    }
}

} // verus!

verus! {

/// Whether `ids` gives, for every dependency of every task, the position of the task it
/// names.
pub open spec fn resolves(
    names: Seq<Seq<char>>,
    deps: Seq<Seq<Seq<char>>>,
    ids: Seq<Vec<usize>>,
) -> bool {
    &&& ids.len() == deps.len()
    &&& deps.len() == names.len()
    &&& forall|i: int| 0 <= i < ids.len() ==> (#[trigger] ids[i]).len() == deps[i].len()
    &&& forall|i: int, k: int|
        0 <= i < ids.len() && 0 <= k < ids[i].len() ==> {
            &&& (#[trigger] ids[i][k]) < names.len()
            &&& ids[i][k] == index_of(names, deps[i][k])
        }
}

/// Whether task `u` has `d` among its resolved dependencies.
pub open spec fn id_edge(ids: Seq<Vec<usize>>, u: int, d: int) -> bool {
    &&& 0 <= u < ids.len()
    &&& 0 <= d < ids.len()
    &&& exists|k: int| 0 <= k < ids[u].len() && #[trigger] ids[u][k] == d
}

/// Whether every resolved dependency is the position of a task.
pub open spec fn ids_in_range(ids: Seq<Vec<usize>>) -> bool {
    forall|i: int, k: int|
        0 <= i < ids.len() && 0 <= k < ids[i].len() ==> (#[trigger] ids[i][k]) < ids.len()
}

/// Resolved dependencies describe the same graph as the names do.
pub proof fn lemma_edges_agree(
    names: Seq<Seq<char>>,
    deps: Seq<Seq<Seq<char>>>,
    ids: Seq<Vec<usize>>,
    i: int,
    j: int,
)
    requires
        distinct(names),
        resolves(names, deps, ids),
    ensures
        depends_on(names, deps, i, j) <==> id_edge(ids, i, j),
{
    if depends_on(names, deps, i, j) {
        let k = choose|k: int| 0 <= k < deps[i].len() && deps[i][k] == names[j];
        lemma_index_of_distinct(names, j);
        assert(ids[i][k] == j);
    }
    if id_edge(ids, i, j) {
        let k = choose|k: int| 0 <= k < ids[i].len() && #[trigger] ids[i][k] == j;
        lemma_index_of(names, deps[i][k]);
        assert(deps[i][k] == names[j]);
    }
}

/// How many entries of `done` are false.
pub open spec fn undone(done: Seq<bool>) -> nat
    decreases done.len(),
{
    if done.len() == 0 {
        0
    } else {
        undone(done.drop_last()) + if done.last() {
            0nat
        } else {
            1nat
        }
    }
}

/// Marking an entry that was not marked leaves fewer entries unmarked.
pub proof fn lemma_marking_leaves_fewer(done: Seq<bool>, at: int)
    requires
        0 <= at < done.len(),
        !done[at],
    ensures
        undone(done.update(at, true)) < undone(done),
    decreases done.len(),
{
    let marked = done.update(at, true);
    if at == done.len() - 1 {
        assert(marked.drop_last() == done.drop_last());
    } else {
        assert(marked.drop_last() == done.drop_last().update(at, true));
        lemma_marking_leaves_fewer(done.drop_last(), at);
    }
}

/// Whether no unmarked task can be marked: each has a dependency that is unmarked too.
pub open spec fn stuck(ids: Seq<Vec<usize>>, done: Seq<bool>) -> bool {
    forall|u: int| 0 <= u < ids.len() && !done[u] ==> #[trigger] is_blocked(ids, done, u)
}

/// Whether task `u` has a dependency that is not marked.
pub open spec fn is_blocked(ids: Seq<Vec<usize>>, done: Seq<bool>, u: int) -> bool {
    exists|k: int| 0 <= k < ids[u].len() && !done[#[trigger] ids[u][k] as int]
}

/// An unmarked dependency of the unmarked task `u`.
pub open spec fn blocking(ids: Seq<Vec<usize>>, done: Seq<bool>, u: int) -> int {
    let k = choose|k: int| 0 <= k < ids[u].len() && !done[#[trigger] ids[u][k] as int];
    ids[u][k] as int
}

/// The walk that starts at `start` and goes `steps` times from a task to an unmarked
/// dependency of it.
pub open spec fn blocked_walk(ids: Seq<Vec<usize>>, done: Seq<bool>, start: int, steps: nat) -> Seq<
    int,
>
    decreases steps,
{
    if steps == 0 {
        seq![start]
    } else {
        let before = blocked_walk(ids, done, start, (steps - 1) as nat);
        before.push(blocking(ids, done, before.last()))
    }
}

/// Where marking is stuck, the walk from an unmarked task stays among unmarked tasks, and
/// each of its tasks has the next one among its dependencies.
pub proof fn lemma_blocked_walk(ids: Seq<Vec<usize>>, done: Seq<bool>, start: int, steps: nat)
    requires
        ids_in_range(ids),
        done.len() == ids.len(),
        stuck(ids, done),
        0 <= start < ids.len(),
        !done[start],
    ensures
        blocked_walk(ids, done, start, steps).len() == steps + 1,
        blocked_walk(ids, done, start, steps)[0] == start,
        forall|i: int|
            0 <= i <= steps ==> #[trigger] unmarked_at(
                ids,
                done,
                blocked_walk(ids, done, start, steps),
                i,
            ),
        forall|i: int|
            0 <= i < steps ==> #[trigger] id_follows(ids, blocked_walk(ids, done, start, steps), i),
    decreases steps,
{
    let walk = blocked_walk(ids, done, start, steps);
    if steps > 0 {
        let before = blocked_walk(ids, done, start, (steps - 1) as nat);
        lemma_blocked_walk(ids, done, start, (steps - 1) as nat);
        let u = before.last();
        assert(unmarked_at(ids, done, before, steps - 1));
        assert(is_blocked(ids, done, u));
        let k = choose|k: int| 0 <= k < ids[u].len() && !done[#[trigger] ids[u][k] as int];
        assert(walk == before.push(ids[u][k] as int));
        assert(ids[u][k] < ids.len());
        assert forall|i: int| 0 <= i <= steps implies #[trigger] unmarked_at(
            ids,
            done,
            walk,
            i,
        ) by {
            if i < steps {
                assert(unmarked_at(ids, done, before, i));
                assert(walk[i] == before[i]);
            }
        }
        assert forall|i: int| 0 <= i < steps implies #[trigger] id_follows(ids, walk, i) by {
            if i < steps - 1 {
                assert(id_follows(ids, before, i));
                assert(walk[i] == before[i]);
                assert(walk[i + 1] == before[i + 1]);
            } else {
                assert(walk[i] == u);
                assert(ids[u][k] == walk[i + 1]);
            }
        }
    } else {
        assert(unmarked_at(ids, done, walk, 0));
    }
}

/// Whether position `i` of `walk` holds an unmarked task.
pub open spec fn unmarked_at(ids: Seq<Vec<usize>>, done: Seq<bool>, walk: Seq<int>, i: int) -> bool {
    0 <= walk[i] < ids.len() && !done[walk[i]]
}

/// Whether the task at position `k` of `walk` has the one after it among its resolved
/// dependencies.
pub open spec fn id_follows(ids: Seq<Vec<usize>>, walk: Seq<int>, k: int) -> bool {
    id_edge(ids, walk[k], walk[k + 1])
}

/// Whether `walk` is a cycle of resolved dependencies.
pub open spec fn is_id_cycle(ids: Seq<Vec<usize>>, walk: Seq<int>) -> bool {
    &&& walk.len() >= 2
    &&& walk[0] == walk[walk.len() - 1]
    &&& forall|k: int| 0 <= k < walk.len() - 1 ==> #[trigger] id_follows(ids, walk, k)
}

/// Where marking is stuck with a task left unmarked, the graph has a cycle.
pub proof fn lemma_stuck_has_cycle(ids: Seq<Vec<usize>>, done: Seq<bool>, start: int) -> (walk: Seq<
    int,
>)
    requires
        ids_in_range(ids),
        done.len() == ids.len(),
        stuck(ids, done),
        0 <= start < ids.len(),
        !done[start],
    ensures
        is_id_cycle(ids, walk),
{
    let steps = ids.len();
    let long = blocked_walk(ids, done, start, steps);
    lemma_blocked_walk(ids, done, start, steps);
    assert forall|i: int| 0 <= i < long.len() implies 0 <= #[trigger] long[i] < steps by {
        assert(unmarked_at(ids, done, long, i));
    }
    let (a, b) = lemma_pigeonhole(long, steps);
    let walk = long.subrange(a, b + 1);
    assert forall|k: int| 0 <= k < walk.len() - 1 implies #[trigger] id_follows(ids, walk, k) by {
        assert(walk[k] == long[a + k]);
        assert(walk[k + 1] == long[a + k + 1]);
        assert(id_follows(ids, long, a + k));
    }
    walk
}

} // verus!
