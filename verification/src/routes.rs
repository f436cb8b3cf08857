//! Walks over the known planet graph, and the orders on them that the
//! breadth-first search follows: fewer steps first, then the order of the
//! neighbor lists.
use common_game::utils::ID;
use vstd::prelude::*;

verus! {

/// `b` is on the known neighbor list of `a`.
pub open spec fn edge(g: Map<ID, Vec<ID>>, a: ID, b: ID) -> bool {
    g.contains_key(a) && g[a]@.contains(b)
}

/// The step from `p[i]` to `p[i + 1]` follows a known edge.
pub open spec fn step_ok(g: Map<ID, Vec<ID>>, p: Seq<ID>, i: int) -> bool {
    edge(g, p[i], p[i + 1])
}

/// The step from `p[i + 1]` back to `p[i]` follows a known edge.
pub open spec fn back_step_ok(g: Map<ID, Vec<ID>>, p: Seq<ID>, i: int) -> bool {
    edge(g, p[i + 1], p[i])
}

/// `p` is a non-empty sequence of planets, each a known neighbor of the one before.
pub open spec fn is_walk(g: Map<ID, Vec<ID>>, p: Seq<ID>) -> bool {
    &&& p.len() >= 1
    &&& forall|i: int| 0 <= i < p.len() - 1 ==> #[trigger] step_ok(g, p, i)
}

/// `p` is a walk from `from` to a planet that satisfies `goal`.
pub open spec fn is_route(
    g: Map<ID, Vec<ID>>,
    from: ID,
    goal: spec_fn(ID) -> bool,
    p: Seq<ID>,
) -> bool {
    &&& is_walk(g, p)
    &&& p[0] == from
    &&& goal(p.last())
}

/// Some planet that satisfies `goal` can be reached from `from`.
pub open spec fn goal_reachable(g: Map<ID, Vec<ID>>, from: ID, goal: spec_fn(ID) -> bool) -> bool {
    exists|p: Seq<ID>| is_route(g, from, goal, p)
}

/// `p` is a route from `from` to a planet satisfying `goal`, and no such
/// route is shorter.
pub open spec fn is_shortest_route(
    g: Map<ID, Vec<ID>>,
    from: ID,
    goal: spec_fn(ID) -> bool,
    p: Seq<ID>,
) -> bool {
    &&& is_route(g, from, goal, p)
    &&& forall|q: Seq<ID>| #[trigger] is_route(g, from, goal, q) ==> p.len() <= q.len()
}

/// The planets other than `from` that have not been visited.
pub open spec fn unvisited_from(visited: Set<ID>, from: ID) -> spec_fn(ID) -> bool {
    |x: ID| x != from && !visited.contains(x)
}

/// `p` is the route to the nearest unvisited planet: the route breadth-first
/// search finds from `from` to a planet other than `from` not visited yet
/// (a shortest one, first in the order of the neighbor lists), through
/// distinct planets, every one between the two ends already visited.
pub open spec fn is_nearest_unvisited_route(
    g: Map<ID, Vec<ID>>,
    visited: Set<ID>,
    from: ID,
    p: Seq<ID>,
) -> bool {
    &&& is_shortest_route(g, from, unvisited_from(visited, from), p)
    &&& is_first_found_route(g, from, unvisited_from(visited, from), p)
    &&& p.len() >= 2
    &&& p.no_duplicates()
    &&& forall|i: int| 0 < i < p.len() - 1 ==> visited.contains(#[trigger] p[i])
}


/// Where `b` first appears on `a`'s neighbor list.
pub open spec fn hop_index(g: Map<ID, Vec<ID>>, a: ID, b: ID) -> int {
    g[a]@.index_of_first(b).unwrap()
}

/// For each step of the walk `p`, where the next planet first appears on
/// the current planet's neighbor list.
pub open spec fn hop_indices(g: Map<ID, Vec<ID>>, p: Seq<ID>) -> Seq<int> {
    Seq::new((p.len() - 1) as nat, |i: int| hop_index(g, p[i], p[i + 1]))
}

/// `a` and `b` agree before position `k` and `a` is smaller at `k`.
pub open spec fn first_difference(a: Seq<int>, b: Seq<int>, k: int) -> bool {
    &&& 0 <= k < a.len()
    &&& k < b.len()
    &&& forall|j: int| 0 <= j < k ==> a[j] == b[j]
    &&& a[k] < b[k]
}

/// `a` comes strictly before `b` in lexicographic order (same lengths).
pub open spec fn lex_less(a: Seq<int>, b: Seq<int>) -> bool {
    &&& a.len() == b.len()
    &&& exists|k: int| #[trigger] first_difference(a, b, k)
}

/// `a` comes before `b` in lexicographic order, or equals it.
pub open spec fn lex_le(a: Seq<int>, b: Seq<int>) -> bool {
    a == b || lex_less(a, b)
}

/// `p` is the route breadth-first search finds: a shortest route from
/// `from` to a planet satisfying `goal`, and among the shortest ones the
/// first in the order of the neighbor lists (its hop indices are the
/// lexicographically least).
pub open spec fn is_first_found_route(
    g: Map<ID, Vec<ID>>,
    from: ID,
    goal: spec_fn(ID) -> bool,
    p: Seq<ID>,
) -> bool {
    &&& is_shortest_route(g, from, goal, p)
    &&& forall|q: Seq<ID>|
        #[trigger] is_route(g, from, goal, q) && q.len() == p.len() ==> lex_le(
            hop_indices(g, p),
            hop_indices(g, q),
        )
}

/// Extending two sequences of equal length keeps their order: strictly
/// where they were strictly ordered, and as the appended items go where
/// they were equal.
pub proof fn lemma_lex_push(a: Seq<int>, b: Seq<int>, x: int, y: int)
    requires
        a.len() == b.len(),
    ensures
        lex_less(a, b) ==> lex_less(a.push(x), b.push(y)),
        a == b && x < y ==> lex_less(a.push(x), b.push(y)),
        lex_le(a, b) && x <= y ==> lex_le(a.push(x), b.push(y)),
{
    if lex_less(a, b) {
        let k = choose|k: int| #[trigger] first_difference(a, b, k);
        assert(first_difference(a.push(x), b.push(y), k));
    }
    if a == b && x < y {
        assert(first_difference(a.push(x), b.push(y), a.len() as int));
    }
    if a == b && x == y {
        assert(a.push(x) =~= b.push(y));
    }
}

/// The lexicographic order is transitive, and strict when either step is.
pub proof fn lemma_lex_trans(a: Seq<int>, b: Seq<int>, c: Seq<int>)
    ensures
        lex_le(a, b) && lex_less(b, c) ==> lex_less(a, c),
        lex_less(a, b) && lex_le(b, c) ==> lex_less(a, c),
        lex_le(a, b) && lex_le(b, c) ==> lex_le(a, c),
{
    if lex_less(a, b) && lex_less(b, c) {
        let k1 = choose|k: int| #[trigger] first_difference(a, b, k);
        let k2 = choose|k: int| #[trigger] first_difference(b, c, k);
        let k = if k1 < k2 {
            k1
        } else {
            k2
        };
        assert(first_difference(a, c, k));
    }
}

/// Strict order excludes equality and the reverse order.
pub proof fn lemma_lex_strict(a: Seq<int>, b: Seq<int>)
    requires
        lex_less(a, b),
    ensures
        a != b,
        !lex_less(b, a),
        !lex_le(b, a),
{
    let k1 = choose|k: int| #[trigger] first_difference(a, b, k);
    if lex_less(b, a) {
        let k2 = choose|k: int| #[trigger] first_difference(b, a, k);
        if k1 < k2 {
            assert(b[k1] == a[k1]);
        } else if k2 < k1 {
            assert(a[k2] == b[k2]);
        }
    }
}

/// The hop indices of a walk extended by one planet.
pub proof fn lemma_hop_indices_push(g: Map<ID, Vec<ID>>, p: Seq<ID>, x: ID)
    requires
        p.len() >= 1,
    ensures
        hop_indices(g, p.push(x)) == hop_indices(g, p).push(hop_index(g, p.last(), x)),
{
    assert(hop_indices(g, p.push(x)) =~= hop_indices(g, p).push(hop_index(g, p.last(), x)));
}

/// Every non-empty prefix of a walk is a walk, and a walk of two or more
/// planets is its prefix extended by its last planet.
pub proof fn lemma_walk_prefix(g: Map<ID, Vec<ID>>, q: Seq<ID>, n: int)
    requires
        is_walk(g, q),
        1 <= n <= q.len(),
    ensures
        is_walk(g, q.take(n)),
        q.take(n)[0] == q[0],
        q.take(n).last() == q[n - 1],
        n == q.len() ==> q.take(n) == q,
        q.len() >= 2 ==> q == q.take(q.len() - 1).push(q.last()),
        q.len() >= 2 ==> edge(g, q[q.len() - 2], q.last()),
{
    let p = q.take(n);
    assert forall|i: int| 0 <= i < p.len() - 1 implies #[trigger] step_ok(g, p, i) by {
        assert(step_ok(g, q, i));
    }
    if n == q.len() {
        assert(p =~= q);
    }
    if q.len() >= 2 {
        assert(q =~= q.take(q.len() - 1).push(q.last()));
        assert(step_ok(g, q, q.len() - 2));
    }
}

/// Along a known edge, the hop index points at the next planet.
pub proof fn lemma_hop_index_points_at(g: Map<ID, Vec<ID>>, a: ID, b: ID)
    requires
        edge(g, a, b),
    ensures
        0 <= hop_index(g, a, b) < g[a]@.len(),
        g[a]@[hop_index(g, a, b)] == b,
        forall|j: int| 0 <= j < hop_index(g, a, b) ==> g[a]@[j] != b,
{
    g[a]@.index_of_first_ensures(b);
}

/// Two walks from the same planet, of the same length and with the same
/// hop indices, are the same walk.
pub proof fn lemma_hop_indices_determine_walk(g: Map<ID, Vec<ID>>, p: Seq<ID>, q: Seq<ID>)
    requires
        is_walk(g, p),
        is_walk(g, q),
        p.len() == q.len(),
        p[0] == q[0],
        hop_indices(g, p) == hop_indices(g, q),
    ensures
        p == q,
    decreases p.len(),
{
    if p.len() >= 2 {
        let n = p.len() - 1;
        lemma_walk_prefix(g, p, n);
        lemma_walk_prefix(g, q, n);
        let p2 = p.take(n);
        let q2 = q.take(n);
        assert(hop_indices(g, p2) =~= hop_indices(g, q2)) by {
            assert forall|i: int| 0 <= i < n - 1 implies hop_indices(g, p2)[i] == hop_indices(
                g,
                q2,
            )[i] by {
                assert(p2.len() == n);
                assert(hop_indices(g, p2).len() == n - 1);
                assert(hop_indices(g, p2)[i] == hop_index(g, p2[i], p2[i + 1]));
                assert(hop_indices(g, p)[i] == hop_index(g, p[i], p[i + 1]));
                assert(hop_indices(g, p)[i] == hop_indices(g, q)[i]);
                assert(p2[i] == p[i] && p2[i + 1] == p[i + 1]);
                assert(q2[i] == q[i] && q2[i + 1] == q[i + 1]);
            }
        }
        lemma_hop_indices_determine_walk(g, p2, q2);
        assert(hop_indices(g, p)[n - 1] == hop_indices(g, q)[n - 1]);
        assert(step_ok(g, p, n - 1));
        assert(step_ok(g, q, n - 1));
        lemma_hop_index_points_at(g, p[n - 1], p[n]);
        lemma_hop_index_points_at(g, q[n - 1], q[n]);
        assert forall|i: int| 0 <= i < p.len() implies p[i] == q[i] by {
            if i < n {
                assert(p2[i] == q2[i]);
                assert(p2[i] == p[i] && q2[i] == q[i]);
            } else {
                assert(p2[n - 1] == q2[n - 1]);
                assert(p2[n - 1] == p[n - 1] && q2[n - 1] == q[n - 1]);
                assert(hop_indices(g, p)[n - 1] == hop_index(g, p[n - 1], p[n]));
                assert(hop_indices(g, q)[n - 1] == hop_index(g, q[n - 1], q[n]));
            }
        }
        assert(p =~= q);
    } else {
        assert(p =~= q);
    }
}

/// Breadth-first search has one answer: two routes that both satisfy
/// `is_first_found_route` are the same route.
pub proof fn lemma_first_found_route_unique(
    g: Map<ID, Vec<ID>>,
    from: ID,
    goal: spec_fn(ID) -> bool,
    p: Seq<ID>,
    q: Seq<ID>,
)
    requires
        is_first_found_route(g, from, goal, p),
        is_first_found_route(g, from, goal, q),
    ensures
        p == q,
{
    assert(is_route(g, from, goal, q));
    assert(is_route(g, from, goal, p));
    assert(p.len() == q.len());
    if hop_indices(g, p) != hop_indices(g, q) {
        lemma_lex_strict(hop_indices(g, p), hop_indices(g, q));
    }
    lemma_hop_indices_determine_walk(g, p, q);
}

} // verus!
