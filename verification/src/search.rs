//! The invariants of the breadth-first search over the known planet graph,
//! and the lemmas that carry them from one step of the search to the next.
//!
//! While searching from `from`, every seen planet has a distance (its
//! number of steps from `from`), a parent one step closer (but `from`), and
//! a tree walk: the walk from `from` along the parents. Planets are finished
//! once their neighbor list has been expanded; the others wait in the
//! queue. The queue is kept in search order: fewer steps first, then the
//! tree walk that comes first in the order of the neighbor lists.
use common_game::utils::ID;
use vstd::prelude::*;

use crate::routes::{
    edge, goal_reachable, hop_index, hop_indices, is_first_found_route, is_route, is_walk,
    lemma_hop_index_points_at, lemma_hop_indices_push, lemma_lex_push, lemma_lex_trans,
    lemma_walk_prefix, lex_le, lex_less, step_ok,
};

verus! {

/// `q` is a walk from `from` that ends at `x`.
pub(crate) open spec fn walk_between(g: Map<ID, Vec<ID>>, from: ID, q: Seq<ID>, x: ID) -> bool {
    &&& is_walk(g, q)
    &&& q[0] == from
    &&& q.last() == x
}

/// Every seen planet has a distance, and every one but `from` a parent one
/// step closer along a known edge.
pub(crate) open spec fn search_tree(
    g: Map<ID, Vec<ID>>,
    from: ID,
    seen: Set<ID>,
    dist: Map<ID, nat>,
    parent: Map<ID, ID>,
) -> bool {
    &&& dist.dom() == seen
    &&& seen.finite()
    &&& seen.contains(from)
    &&& dist[from] == 0
    &&& parent.dom() == seen.remove(from)
    &&& forall|n: ID|
        #[trigger] parent.contains_key(n) ==> seen.contains(parent[n]) && dist[parent[n]] + 1
            == dist[n] && edge(g, parent[n], n)
}

/// Each seen planet's tree walk goes from `from` to it through seen
/// planets, one step further at each planet, and extends its parent's.
pub(crate) open spec fn tree_walks(
    g: Map<ID, Vec<ID>>,
    from: ID,
    seen: Set<ID>,
    dist: Map<ID, nat>,
    parent: Map<ID, ID>,
    canon: Map<ID, Seq<ID>>,
) -> bool {
    &&& canon.dom() == seen
    &&& canon[from] == seq![from]
    &&& forall|x: ID|
        #[trigger] seen.contains(x) ==> walk_between(g, from, canon[x], x) && canon[x].len()
            == dist[x] + 1
    &&& forall|x: ID, j: int|
        seen.contains(x) && 0 <= j < canon[x].len() ==> seen.contains(#[trigger] canon[x][j])
            && dist[canon[x][j]] == j
    &&& forall|x: ID| #[trigger] parent.contains_key(x) ==> canon[x] == canon[parent[x]].push(x)
}

/// Every seen planet's tree walk has the least hop indices among the walks
/// of its length from `from` to it.
pub(crate) open spec fn tree_walks_least(
    g: Map<ID, Vec<ID>>,
    from: ID,
    seen: Set<ID>,
    dist: Map<ID, nat>,
    canon: Map<ID, Seq<ID>>,
) -> bool {
    forall|x: ID, q: Seq<ID>|
        #![trigger seen.contains(x), walk_between(g, from, q, x)]
        seen.contains(x) && walk_between(g, from, q, x) && q.len() == dist[x] + 1 ==> lex_le(
            hop_indices(g, canon[x]),
            hop_indices(g, q),
        )
}

/// Every known neighbor of a finished planet has been seen, at most one
/// step further from the start.
pub(crate) open spec fn finished_closed(
    g: Map<ID, Vec<ID>>,
    done: Set<ID>,
    seen: Set<ID>,
    dist: Map<ID, nat>,
) -> bool {
    forall|p: ID, y: ID|
        #![trigger done.contains(p), edge(g, p, y)]
        done.contains(p) && edge(g, p, y) ==> seen.contains(y) && dist[y] <= dist[p] + 1
}

/// The queue holds distinct seen, unfinished planets in order of distance,
/// spanning at most two consecutive distances.
pub(crate) open spec fn queue_ordered(
    q: Seq<ID>,
    seen: Set<ID>,
    done: Set<ID>,
    dist: Map<ID, nat>,
) -> bool {
    &&& q.no_duplicates()
    &&& forall|i: int| 0 <= i < q.len() ==> seen.contains(#[trigger] q[i]) && !done.contains(q[i])
    &&& forall|i: int, j: int|
        #![trigger q[i], q[j]]
        0 <= i <= j < q.len() ==> dist[q[i]] <= dist[q[j]] <= dist[q[i]] + 1
}

/// `x` comes before `y` in search order: fewer steps, or as many steps and
/// a tree walk with lesser hop indices.
pub(crate) open spec fn search_before(
    g: Map<ID, Vec<ID>>,
    dist: Map<ID, nat>,
    canon: Map<ID, Seq<ID>>,
    x: ID,
    y: ID,
) -> bool {
    ||| dist[x] < dist[y]
    ||| (dist[x] == dist[y] && lex_less(hop_indices(g, canon[x]), hop_indices(g, canon[y])))
}

/// The queue is in search order, and every finished planet comes before
/// every queued one.
pub(crate) open spec fn queue_in_search_order(
    g: Map<ID, Vec<ID>>,
    q: Seq<ID>,
    done: Set<ID>,
    dist: Map<ID, nat>,
    canon: Map<ID, Seq<ID>>,
) -> bool {
    &&& forall|i: int, j: int|
        #![trigger q[i], q[j]]
        0 <= i < j < q.len() ==> search_before(g, dist, canon, q[i], q[j])
    &&& forall|x: ID, j: int|
        #![trigger done.contains(x), q[j]]
        done.contains(x) && 0 <= j < q.len() ==> search_before(g, dist, canon, x, q[j])
}

/// The state of the search between two expansions: seen planets are
/// finished or queued, and the parents of all seen planets are finished.
pub(crate) open spec fn searching(
    g: Map<ID, Vec<ID>>,
    from: ID,
    seen: Set<ID>,
    dist: Map<ID, nat>,
    parent: Map<ID, ID>,
    canon: Map<ID, Seq<ID>>,
    done: Set<ID>,
    queue: Seq<ID>,
) -> bool {
    &&& search_tree(g, from, seen, dist, parent)
    &&& tree_walks(g, from, seen, dist, parent, canon)
    &&& tree_walks_least(g, from, seen, dist, canon)
    &&& done.subset_of(seen)
    &&& forall|x: ID| #[trigger] seen.contains(x) ==> done.contains(x) || queue.contains(x)
    &&& queue_ordered(queue, seen, done, dist)
    &&& queue_in_search_order(g, queue, done, dist, canon)
    &&& queue.len() > 0 ==> forall|x: ID| #[trigger] done.contains(x) ==> dist[x] <= dist[queue[0]]
    &&& finished_closed(g, done, seen, dist)
    &&& forall|x: ID| #[trigger] parent.contains_key(x) ==> done.contains(parent[x])
}

/// The state of the search while `cur`, `h` steps from the start, has its
/// neighbor list `nb` expanded up to position `i`: everything seen is
/// finished, queued or `cur`; `cur` comes after every finished planet and
/// before every queued one; the planets seen from `cur` so far are those
/// that first appear on its list before `i`.
pub(crate) open spec fn expanding(
    g: Map<ID, Vec<ID>>,
    from: ID,
    seen: Set<ID>,
    dist: Map<ID, nat>,
    parent: Map<ID, ID>,
    canon: Map<ID, Seq<ID>>,
    done: Set<ID>,
    queue: Seq<ID>,
    cur: ID,
    h: int,
    nb: Seq<ID>,
    i: int,
) -> bool {
    &&& search_tree(g, from, seen, dist, parent)
    &&& tree_walks(g, from, seen, dist, parent, canon)
    &&& tree_walks_least(g, from, seen, dist, canon)
    &&& done.subset_of(seen)
    &&& seen.contains(cur)
    &&& !done.contains(cur)
    &&& !queue.contains(cur)
    &&& h >= 0
    &&& dist[cur] == h
    &&& g.contains_key(cur)
    &&& nb == g[cur]@
    &&& 0 <= i <= nb.len()
    &&& forall|x: ID|
        #[trigger] seen.contains(x) ==> done.contains(x) || queue.contains(x) || x == cur
    &&& queue_ordered(queue, seen, done, dist)
    &&& queue_in_search_order(g, queue, done, dist, canon)
    &&& forall|j: int|
        0 <= j < queue.len() ==> h <= dist[#[trigger] queue[j]] <= h + 1 && search_before(
            g,
            dist,
            canon,
            cur,
            queue[j],
        )
    &&& forall|x: ID| #[trigger]
        done.contains(x) ==> dist[x] <= h && search_before(g, dist, canon, x, cur)
    &&& finished_closed(g, done, seen, dist)
    &&& forall|x: ID| #[trigger]
        parent.contains_key(x) ==> done.contains(parent[x]) || (parent[x] == cur && hop_index(
            g,
            cur,
            x,
        ) < i)
    &&& forall|k: int| 0 <= k < i ==> seen.contains(#[trigger] nb[k]) && dist[nb[k]] <= h + 1
}

/// A walk from `from` that is no longer than `bound` ends at a seen planet,
/// provided every seen planet closer than `bound` is finished.
pub(crate) proof fn lemma_walk_stays_seen(
    g: Map<ID, Vec<ID>>,
    from: ID,
    seen: Set<ID>,
    dist: Map<ID, nat>,
    done: Set<ID>,
    bound: nat,
    q: Seq<ID>,
)
    requires
        dist.dom() == seen,
        seen.contains(from),
        dist[from] == 0,
        finished_closed(g, done, seen, dist),
        forall|x: ID| #[trigger] seen.contains(x) && dist[x] < bound ==> done.contains(x),
        is_walk(g, q),
        q[0] == from,
        q.len() - 1 <= bound,
    ensures
        seen.contains(q.last()),
        dist[q.last()] <= q.len() - 1,
    decreases q.len(),
{
    if q.len() > 1 {
        let q2 = q.drop_last();
        assert forall|i: int| 0 <= i < q2.len() - 1 implies #[trigger] step_ok(g, q2, i) by {
            assert(step_ok(g, q, i));
        }
        lemma_walk_stays_seen(g, from, seen, dist, done, bound, q2);
        let a = q[q.len() - 2];
        assert(step_ok(g, q, q.len() - 2));
        assert(done.contains(a) && edge(g, a, q.last()));
    }
}

/// Every planet closer than `cur` is finished.
proof fn lemma_closer_than_cur_finished(
    g: Map<ID, Vec<ID>>,
    from: ID,
    seen: Set<ID>,
    dist: Map<ID, nat>,
    parent: Map<ID, ID>,
    canon: Map<ID, Seq<ID>>,
    done: Set<ID>,
    queue: Seq<ID>,
    cur: ID,
    h: int,
    nb: Seq<ID>,
    i: int,
)
    requires
        expanding(g, from, seen, dist, parent, canon, done, queue, cur, h, nb, i),
    ensures
        forall|x: ID| #[trigger] seen.contains(x) && dist[x] < h ==> done.contains(x),
{
    assert forall|x: ID| #[trigger] seen.contains(x) && dist[x] < h implies done.contains(x) by {
        if queue.contains(x) {
            let j = choose|j: int| 0 <= j < queue.len() && queue[j] == x;
            assert(h <= dist[queue[j]]);
        }
    }
}

/// Take a walk from `from` with `h + 2` planets whose last planet has not
/// been seen, while `cur` is being expanded. Its second-to-last planet is a
/// seen planet `h` steps away, and the walk up to it has hop indices no
/// less than those of `cur`'s tree walk; strictly greater unless that
/// planet is `cur` itself.
proof fn lemma_unseen_end_comes_after(
    g: Map<ID, Vec<ID>>,
    from: ID,
    seen: Set<ID>,
    dist: Map<ID, nat>,
    parent: Map<ID, ID>,
    canon: Map<ID, Seq<ID>>,
    done: Set<ID>,
    queue: Seq<ID>,
    cur: ID,
    h: int,
    nb: Seq<ID>,
    i: int,
    q: Seq<ID>,
)
    requires
        expanding(g, from, seen, dist, parent, canon, done, queue, cur, h, nb, i),
        walk_between(g, from, q, q.last()),
        q.len() == h + 2,
        !seen.contains(q.last()),
    ensures
        seen.contains(q[h]),
        dist[q[h]] == h,
        walk_between(g, from, q.take(h + 1), q[h]),
        q == q.take(h + 1).push(q.last()),
        edge(g, q[h], q.last()),
        q[h] == cur ==> lex_le(hop_indices(g, canon[cur]), hop_indices(g, q.take(h + 1))),
        q[h] != cur ==> lex_less(hop_indices(g, canon[cur]), hop_indices(g, q.take(h + 1))),
{
    let z = q[h];
    let prefix = q.take(h + 1);
    lemma_walk_prefix(g, q, h + 1);
    lemma_walk_prefix(g, q, q.len() as int);
    lemma_closer_than_cur_finished(g, from, seen, dist, parent, canon, done, queue, cur, h, nb, i);
    lemma_walk_stays_seen(g, from, seen, dist, done, h as nat, prefix);
    if done.contains(z) {
        assert(seen.contains(q.last()));
    }
    assert(dist[z] == h);
    assert(walk_between(g, from, prefix, z));
    assert(lex_le(hop_indices(g, canon[z]), hop_indices(g, prefix)));
    if z != cur {
        let j = choose|j: int| 0 <= j < queue.len() && queue[j] == z;
        assert(search_before(g, dist, canon, cur, queue[j]));
        lemma_lex_trans(
            hop_indices(g, canon[cur]),
            hop_indices(g, canon[z]),
            hop_indices(g, prefix),
        );
    }
}

/// The search starts with only `from` seen and queued.
pub(crate) proof fn lemma_search_start(g: Map<ID, Vec<ID>>, from: ID)
    ensures
        searching(
            g,
            from,
            set![from],
            map![from => 0nat],
            Map::<ID, ID>::empty(),
            map![from => seq![from]],
            Set::<ID>::empty(),
            seq![from],
        ),
{
    let seen = set![from];
    let dist = map![from => 0nat];
    let canon = map![from => seq![from]];
    assert(dist.dom() =~= seen);
    assert(canon.dom() =~= seen);
    assert(Map::<ID, ID>::empty().dom() =~= seen.remove(from));
    assert(seq![from][0] == from);
    assert forall|x: ID, q: Seq<ID>|
        seen.contains(x) && walk_between(g, from, q, x) && q.len() == dist[x] + 1 implies lex_le(
        hop_indices(g, canon[x]),
        hop_indices(g, q),
    ) by {
        assert(q =~= canon[x]);
    }
}

/// With the queue empty, every walk from `from` stays among the seen planets:
/// none of those that satisfy `goal` can be reached if none was seen.
pub(crate) proof fn lemma_search_exhausted(
    g: Map<ID, Vec<ID>>,
    from: ID,
    seen: Set<ID>,
    dist: Map<ID, nat>,
    parent: Map<ID, ID>,
    canon: Map<ID, Seq<ID>>,
    done: Set<ID>,
    goal: spec_fn(ID) -> bool,
)
    requires
        searching(g, from, seen, dist, parent, canon, done, Seq::<ID>::empty()),
        forall|x: ID| #[trigger] seen.contains(x) ==> !goal(x),
    ensures
        !goal_reachable(g, from, goal),
{
    assert forall|q: Seq<ID>| #[trigger] is_route(g, from, goal, q) implies false by {
        assert forall|x: ID| #[trigger] seen.contains(x) && dist[x] < q.len() implies done.contains(
            x,
        ) by {
            assert(!Seq::<ID>::empty().contains(x));
        }
        lemma_walk_stays_seen(g, from, seen, dist, done, q.len(), q);
    }
}

/// Taking the head of the queue: a planet without a known neighbor list is
/// finished at once.
pub(crate) proof fn lemma_finish_unlisted(
    g: Map<ID, Vec<ID>>,
    from: ID,
    seen: Set<ID>,
    dist: Map<ID, nat>,
    parent: Map<ID, ID>,
    canon: Map<ID, Seq<ID>>,
    done: Set<ID>,
    queue: Seq<ID>,
)
    requires
        searching(g, from, seen, dist, parent, canon, done, queue),
        queue.len() > 0,
        !g.contains_key(queue[0]),
    ensures
        searching(
            g,
            from,
            seen,
            dist,
            parent,
            canon,
            done.insert(queue[0]),
            queue.subrange(1, queue.len() as int),
        ),
{
    let cur = queue[0];
    let rest = queue.subrange(1, queue.len() as int);
    let done2 = done.insert(cur);
    assert forall|x: ID| #[trigger] seen.contains(x) implies done2.contains(x) || rest.contains(
        x,
    ) by {
        if !done.contains(x) && x != cur {
            let i = choose|i: int| 0 <= i < queue.len() && queue[i] == x;
            assert(rest[i - 1] == x);
        }
    }
    assert forall|i: int| 0 <= i < rest.len() implies !done2.contains(#[trigger] rest[i]) by {
        assert(rest[i] == queue[i + 1]);
    }
    assert forall|i: int, j: int| 0 <= i <= j < rest.len() implies dist[#[trigger] rest[i]]
        <= dist[#[trigger] rest[j]] <= dist[rest[i]] + 1 by {
        assert(rest[i] == queue[i + 1] && rest[j] == queue[j + 1]);
    }
    assert forall|i: int, j: int| 0 <= i < j < rest.len() implies search_before(
        g,
        dist,
        canon,
        #[trigger] rest[i],
        #[trigger] rest[j],
    ) by {
        assert(rest[i] == queue[i + 1] && rest[j] == queue[j + 1]);
    }
    assert forall|x: ID, j: int|
        #[trigger] done2.contains(x) && 0 <= j < rest.len() implies search_before(
        g,
        dist,
        canon,
        x,
        #[trigger] rest[j],
    ) by {
        assert(rest[j] == queue[j + 1]);
        if x == cur {
            assert(search_before(g, dist, canon, queue[0], queue[j + 1]));
        }
    }
    if rest.len() > 0 {
        assert(rest[0] == queue[1]);
    }
}

/// Taking the head of the queue: a planet with a known neighbor list starts
/// being expanded.
pub(crate) proof fn lemma_expand_start(
    g: Map<ID, Vec<ID>>,
    from: ID,
    seen: Set<ID>,
    dist: Map<ID, nat>,
    parent: Map<ID, ID>,
    canon: Map<ID, Seq<ID>>,
    done: Set<ID>,
    queue: Seq<ID>,
)
    requires
        searching(g, from, seen, dist, parent, canon, done, queue),
        queue.len() > 0,
        g.contains_key(queue[0]),
    ensures
        expanding(
            g,
            from,
            seen,
            dist,
            parent,
            canon,
            done,
            queue.subrange(1, queue.len() as int),
            queue[0],
            dist[queue[0]] as int,
            g[queue[0]]@,
            0,
        ),
{
    let cur = queue[0];
    let h = dist[cur];
    let rest = queue.subrange(1, queue.len() as int);
    assert forall|j: int| 0 <= j < rest.len() implies h <= dist[#[trigger] rest[j]] <= h + 1
        && search_before(g, dist, canon, cur, rest[j]) by {
        assert(rest[j] == queue[j + 1]);
    }
    assert forall|x: ID| #[trigger] done.contains(x) implies dist[x] <= h && search_before(
        g,
        dist,
        canon,
        x,
        cur,
    ) by {
        assert(search_before(g, dist, canon, x, queue[0]));
    }
    assert(!rest.contains(cur)) by {
        if rest.contains(cur) {
            let i = choose|i: int| 0 <= i < rest.len() && rest[i] == cur;
            assert(queue[i + 1] == cur);
        }
    }
    assert forall|x: ID| #[trigger] seen.contains(x) implies done.contains(x) || rest.contains(x)
        || x == cur by {
        if !done.contains(x) && x != cur {
            let i = choose|i: int| 0 <= i < queue.len() && queue[i] == x;
            assert(rest[i - 1] == x);
        }
    }
    assert forall|i: int| 0 <= i < rest.len() implies seen.contains(#[trigger] rest[i])
        && !done.contains(rest[i]) by {
        assert(rest[i] == queue[i + 1]);
    }
    assert forall|i: int, j: int| 0 <= i <= j < rest.len() implies dist[#[trigger] rest[i]]
        <= dist[#[trigger] rest[j]] <= dist[rest[i]] + 1 by {
        assert(rest[i] == queue[i + 1] && rest[j] == queue[j + 1]);
    }
    assert forall|i: int, j: int| 0 <= i < j < rest.len() implies search_before(
        g,
        dist,
        canon,
        #[trigger] rest[i],
        #[trigger] rest[j],
    ) by {
        assert(rest[i] == queue[i + 1] && rest[j] == queue[j + 1]);
    }
    assert forall|x: ID, j: int|
        #[trigger] done.contains(x) && 0 <= j < rest.len() implies search_before(
        g,
        dist,
        canon,
        x,
        #[trigger] rest[j],
    ) by {
        assert(rest[j] == queue[j + 1]);
    }
}

/// A neighbor already seen is skipped.
pub(crate) proof fn lemma_skip_seen(
    g: Map<ID, Vec<ID>>,
    from: ID,
    seen: Set<ID>,
    dist: Map<ID, nat>,
    parent: Map<ID, ID>,
    canon: Map<ID, Seq<ID>>,
    done: Set<ID>,
    queue: Seq<ID>,
    cur: ID,
    h: int,
    nb: Seq<ID>,
    i: int,
)
    requires
        expanding(g, from, seen, dist, parent, canon, done, queue, cur, h, nb, i),
        i < nb.len(),
        seen.contains(nb[i]),
    ensures
        expanding(g, from, seen, dist, parent, canon, done, queue, cur, h, nb, i + 1),
{
    let n = nb[i];
    if !done.contains(n) && n != cur {
        let j = choose|j: int| 0 <= j < queue.len() && queue[j] == n;
        assert(dist[queue[j]] <= h + 1);
    }
}

/// Once its whole neighbor list has been expanded, `cur` is finished.
pub(crate) proof fn lemma_expand_end(
    g: Map<ID, Vec<ID>>,
    from: ID,
    seen: Set<ID>,
    dist: Map<ID, nat>,
    parent: Map<ID, ID>,
    canon: Map<ID, Seq<ID>>,
    done: Set<ID>,
    queue: Seq<ID>,
    cur: ID,
    h: int,
    nb: Seq<ID>,
)
    requires
        expanding(g, from, seen, dist, parent, canon, done, queue, cur, h, nb, nb.len() as int),
    ensures
        searching(g, from, seen, dist, parent, canon, done.insert(cur), queue),
{
    assert forall|y: ID| #[trigger] edge(g, cur, y) implies seen.contains(y) && dist[y] <= dist[cur]
        + 1 by {
        let k = choose|k: int| 0 <= k < nb.len() && nb[k] == y;
        assert(seen.contains(nb[k]));
    }
}

/// Seeing a new planet `n = nb[i]` from `cur`: it gets distance `h + 1`,
/// parent `cur`, the tree walk of `cur` extended by it, and goes to the back
/// of the queue, which stays in search order.
pub(crate) proof fn lemma_discover(
    g: Map<ID, Vec<ID>>,
    from: ID,
    seen: Set<ID>,
    dist: Map<ID, nat>,
    parent: Map<ID, ID>,
    canon: Map<ID, Seq<ID>>,
    done: Set<ID>,
    queue: Seq<ID>,
    cur: ID,
    h: int,
    nb: Seq<ID>,
    i: int,
)
    requires
        expanding(g, from, seen, dist, parent, canon, done, queue, cur, h, nb, i),
        i < nb.len(),
        !seen.contains(nb[i]),
    ensures
        hop_index(g, cur, nb[i]) == i,
        seen.insert(nb[i]).len() == seen.len() + 1,
        expanding(
            g,
            from,
            seen.insert(nb[i]),
            dist.insert(nb[i], (h + 1) as nat),
            parent.insert(nb[i], cur),
            canon.insert(nb[i], canon[cur].push(nb[i])),
            done,
            queue.push(nb[i]),
            cur,
            h,
            nb,
            i + 1,
        ),
{
    let n = nb[i];
    let seen2 = seen.insert(n);
    let dist2 = dist.insert(n, (h + 1) as nat);
    let parent2 = parent.insert(n, cur);
    let cw = canon[cur];
    let canon2 = canon.insert(n, cw.push(n));
    let queue2 = queue.push(n);
    assert(dist2.dom() =~= seen2);
    assert(canon2.dom() =~= seen2);
    assert(parent2.dom() =~= seen2.remove(from));
    assert(edge(g, cur, n));
    // The search tree.
    assert forall|m: ID| #[trigger] parent2.contains_key(m) implies seen2.contains(parent2[m])
        && dist2[parent2[m]] + 1 == dist2[m] && edge(g, parent2[m], m) by {
        if m != n {
            assert(seen.contains(parent[m]));
        }
    }
    // Where `n` first appears on `cur`'s list: here.
    lemma_hop_index_points_at(g, cur, n);
    if hop_index(g, cur, n) < i {
        assert(seen.contains(nb[hop_index(g, cur, n)]));
    }
    // The tree walk to `n`.
    assert(walk_between(g, from, cw, cur));
    assert(walk_between(g, from, cw.push(n), n)) by {
        assert forall|k: int| 0 <= k < cw.push(n).len() - 1 implies #[trigger] step_ok(
            g,
            cw.push(n),
            k,
        ) by {
            if k < cw.len() - 1 {
                assert(step_ok(g, cw, k));
            }
        }
    }
    lemma_hop_indices_push(g, cw, n);
    assert forall|x: ID| #[trigger] seen2.contains(x) implies walk_between(g, from, canon2[x], x)
        && canon2[x].len() == dist2[x] + 1 by {
        if x != n {
            assert(seen.contains(x));
        }
    }
    assert forall|x: ID, j: int|
        seen2.contains(x) && 0 <= j < canon2[x].len() implies seen2.contains(
        #[trigger] canon2[x][j],
    ) && dist2[canon2[x][j]] == j by {
        if x == n {
            if j < cw.len() {
                assert(canon2[x][j] == cw[j]);
                assert(seen.contains(cw[j]));
            }
        } else {
            assert(seen.contains(canon[x][j]));
        }
    }
    assert forall|m: ID|
        #[trigger] parent2.contains_key(m) implies canon2[m] == canon2[parent2[m]].push(
        m,
    ) by {
        if m != n {
            assert(parent[m] != n);
        }
    }
    // The tree walk to `n` is the least among walks of its length.
    assert forall|x: ID, q: Seq<ID>|
        seen2.contains(x) && walk_between(g, from, q, x) && q.len() == dist2[x] + 1 implies lex_le(
        hop_indices(g, canon2[x]),
        hop_indices(g, q),
    ) by {
        if x == n {
            lemma_unseen_end_comes_after(
                g,
                from,
                seen,
                dist,
                parent,
                canon,
                done,
                queue,
                cur,
                h,
                nb,
                i,
                q,
            );
            let z = q[h];
            let prefix = q.take(h + 1);
            lemma_hop_indices_push(g, prefix, n);
            lemma_lex_push(
                hop_indices(g, cw),
                hop_indices(g, prefix),
                hop_index(g, cur, n),
                hop_index(g, z, n),
            );
        } else {
            assert(seen.contains(x));
            assert(walk_between(g, from, q, x));
        }
    }
    // Parents are finished, or `cur` for planets that appear earlier on its list.
    assert forall|m: ID| #[trigger] parent2.contains_key(m) implies done.contains(parent2[m]) || (
    parent2[m] == cur && hop_index(g, cur, m) < i + 1) by {
        if m != n {
            assert(parent.contains_key(m));
        }
    }
    // The queue with `n` at its back.
    assert(queue2[queue2.len() - 1] == n);
    assert forall|x: ID| #[trigger] seen2.contains(x) implies done.contains(x) || queue2.contains(x)
        || x == cur by {
        if x != n && queue.contains(x) {
            let j = choose|j: int| 0 <= j < queue.len() && queue[j] == x;
            assert(queue2[j] == x);
        }
    }
    assert forall|j: int| 0 <= j < queue.len() implies search_before(
        g,
        dist2,
        canon2,
        #[trigger] queue[j],
        n,
    ) by {
        let y = queue[j];
        assert(seen.contains(y));
        if dist[y] == h + 1 {
            assert(parent.contains_key(y));
            let p = parent[y];
            lemma_hop_indices_push(g, canon[p], y);
            if done.contains(p) {
                assert(search_before(g, dist, canon, p, cur));
            }
            lemma_lex_push(
                hop_indices(g, canon[p]),
                hop_indices(g, cw),
                hop_index(g, p, y),
                hop_index(g, cur, n),
            );
        }
    }
    assert forall|j: int| 0 <= j < queue2.len() implies h <= dist2[#[trigger] queue2[j]] <= h + 1
        && search_before(g, dist2, canon2, cur, queue2[j]) by {
        if j < queue.len() {
            assert(queue2[j] == queue[j]);
            assert(search_before(g, dist, canon, cur, queue[j]));
        }
    }
    assert forall|a: int, b: int| 0 <= a < b < queue2.len() implies search_before(
        g,
        dist2,
        canon2,
        #[trigger] queue2[a],
        #[trigger] queue2[b],
    ) by {
        if b < queue.len() {
            assert(search_before(g, dist, canon, queue[a], queue[b]));
        } else {
            assert(search_before(g, dist2, canon2, queue[a], n));
        }
    }
    assert forall|x: ID, j: int|
        #[trigger] done.contains(x) && 0 <= j < queue2.len() implies search_before(
        g,
        dist2,
        canon2,
        x,
        #[trigger] queue2[j],
    ) by {
        if j < queue.len() {
            assert(queue2[j] == queue[j]);
            assert(search_before(g, dist, canon, x, queue[j]));
        }
    }
    assert forall|a: int, b: int| 0 <= a <= b < queue2.len() implies dist2[#[trigger] queue2[a]]
        <= dist2[#[trigger] queue2[b]] <= dist2[queue2[a]] + 1 by {
        if b < queue.len() {
            assert(queue2[a] == queue[a] && queue2[b] == queue[b]);
        } else if a < queue.len() {
            assert(queue2[a] == queue[a]);
        }
    }
    assert forall|x: ID| #[trigger] done.contains(x) implies dist2[x] <= h && search_before(
        g,
        dist2,
        canon2,
        x,
        cur,
    ) by {
        assert(search_before(g, dist, canon, x, cur));
    }
}

/// Seeing a new planet `n = nb[i]` that satisfies `goal`, when no planet
/// seen before does: the tree walk of `cur` extended by `n` is the route
/// breadth-first search finds, and only its last planet satisfies `goal`.
pub(crate) proof fn lemma_found_is_first(
    g: Map<ID, Vec<ID>>,
    from: ID,
    seen: Set<ID>,
    dist: Map<ID, nat>,
    parent: Map<ID, ID>,
    canon: Map<ID, Seq<ID>>,
    done: Set<ID>,
    queue: Seq<ID>,
    cur: ID,
    h: int,
    nb: Seq<ID>,
    i: int,
    goal: spec_fn(ID) -> bool,
)
    requires
        expanding(g, from, seen, dist, parent, canon, done, queue, cur, h, nb, i),
        i < nb.len(),
        !seen.contains(nb[i]),
        forall|x: ID| #[trigger] seen.contains(x) ==> !goal(x),
        goal(nb[i]),
    ensures
        is_first_found_route(g, from, goal, canon[cur].push(nb[i])),
        canon[cur].push(nb[i]).no_duplicates(),
        forall|j: int|
            0 <= j < canon[cur].push(nb[i]).len() - 1 ==> !goal(
                #[trigger] canon[cur].push(nb[i])[j],
            ),
{
    let n = nb[i];
    let cw = canon[cur];
    let p = cw.push(n);
    lemma_discover(g, from, seen, dist, parent, canon, done, queue, cur, h, nb, i);
    let canon2 = canon.insert(n, p);
    let seen2 = seen.insert(n);
    let dist2 = dist.insert(n, (h + 1) as nat);
    assert(canon2[n] == p);
    assert(walk_between(g, from, p, n));
    assert(p.len() == h + 2);
    // Only the last planet satisfies `goal`, and no planet repeats.
    assert forall|j: int| 0 <= j < p.len() - 1 implies !goal(#[trigger] p[j]) by {
        assert(p[j] == cw[j]);
        assert(seen.contains(cw[j]));
    }
    assert forall|a: int, b: int| 0 <= a < b < p.len() implies p[a] != p[b] by {
        assert(seen2.contains(canon2[n][a]) && dist2[canon2[n][a]] == a);
        assert(seen2.contains(canon2[n][b]) && dist2[canon2[n][b]] == b);
    }
    // No route to a goal is shorter.
    lemma_closer_than_cur_finished(g, from, seen, dist, parent, canon, done, queue, cur, h, nb, i);
    assert forall|q: Seq<ID>| #[trigger] is_route(g, from, goal, q) implies p.len() <= q.len() by {
        if q.len() < h + 2 {
            lemma_walk_stays_seen(g, from, seen, dist, done, h as nat, q);
        }
    }
    // Among the shortest, it comes first.
    assert forall|q: Seq<ID>|
        #[trigger] is_route(g, from, goal, q) && q.len() == p.len() implies lex_le(
        hop_indices(g, p),
        hop_indices(g, q),
    ) by {
        let y = q.last();
        assert(walk_between(g, from, q, y));
        lemma_unseen_end_comes_after(
            g,
            from,
            seen,
            dist,
            parent,
            canon,
            done,
            queue,
            cur,
            h,
            nb,
            i,
            q,
        );
        let z = q[h];
        let prefix = q.take(h + 1);
        lemma_hop_indices_push(g, prefix, y);
        lemma_hop_indices_push(g, cw, n);
        if z == cur {
            lemma_hop_index_points_at(g, cur, y);
            if hop_index(g, cur, y) < i {
                assert(seen.contains(nb[hop_index(g, cur, y)]));
            }
        }
        lemma_lex_push(
            hop_indices(g, cw),
            hop_indices(g, prefix),
            hop_index(g, cur, n),
            hop_index(g, z, y),
        );
    }
}

} // verus!
