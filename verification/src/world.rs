//! What Clerk has learned about the planet graph so far: each planet's
//! neighbor list, each planet's basic resources (by kind code) and the
//! planets visited. Filled in lazily from neighbor and resource replies,
//! never assumed known up front.
use std::collections::{HashMap, HashSet, VecDeque};

use common_game::utils::ID;
use vstd::prelude::*;

use crate::routes::{
    goal_reachable, hop_indices, is_first_found_route, is_nearest_unvisited_route, is_route, lex_le,
    unvisited_from,
};
use crate::search::{
    expanding, lemma_discover, lemma_expand_end, lemma_expand_start, lemma_finish_unlisted,
    lemma_found_is_first, lemma_search_exhausted, lemma_search_start, lemma_skip_seen, search_tree,
    searching, tree_walks,
};

verus! {

/// Everything the explorer has learned of the map.
#[derive(Debug)]
pub struct WorldModel {
    /// Known neighbor lists, by planet.
    pub neighbors: HashMap<ID, Vec<ID>>,
    /// Known basic resources, by planet, as kind codes.
    pub resources: HashMap<ID, HashSet<u8>>,
    /// Planets visited so far.
    pub visited: HashSet<ID>,
}

impl Default for WorldModel {
    fn default() -> (r: WorldModel)
        ensures
            r.neighbors@ == Map::<ID, Vec<ID>>::empty(),
            r.resources@ == Map::<ID, HashSet<u8>>::empty(),
            r.visited@ == Set::<ID>::empty(),
    {
        WorldModel { neighbors: HashMap::new(), resources: HashMap::new(), visited: HashSet::new() }
    }
}

impl WorldModel {
    /// Stores `neighbors` as the neighbor list of `planet`, replacing any
    /// list known before.
    pub fn record_neighbors(&mut self, planet: ID, neighbors: Vec<ID>)
        ensures
            final(self).neighbors@ == old(self).neighbors@.insert(planet, neighbors),
            final(self).resources@ == old(self).resources@,
            final(self).visited@ == old(self).visited@,
    {
        self.neighbors.insert(planet, neighbors);
    }

    /// Stores `resources` as the basic resources of `planet`, replacing any
    /// set known before.
    pub fn record_resources(&mut self, planet: ID, resources: HashSet<u8>)
        ensures
            final(self).resources@ == old(self).resources@.insert(planet, resources),
            final(self).neighbors@ == old(self).neighbors@,
            final(self).visited@ == old(self).visited@,
    {
        self.resources.insert(planet, resources);
    }

    /// Nearest planet not visited yet: the route from `from` to it over the
    /// known neighbor lists, used to decide where to wander once everything
    /// on the current planet has been sampled this visit. The route is a
    /// shortest one; among equally short ones it is the first in the order
    /// of the neighbor lists. `None` when no unvisited planet can be
    /// reached with what is known.
    pub fn nearest_unvisited(&self, from: ID) -> (r: Option<Vec<ID>>)
        ensures
            match r {
                Some(p) => is_nearest_unvisited_route(self.neighbors@, self.visited@, from, p@),
                None => !goal_reachable(self.neighbors@, from, unvisited_from(self.visited@, from)),
            },
    {
        let visited = &self.visited;
        let goal = |p: ID| -> (b: bool)
            ensures
                b == (p != from && !visited@.contains(p)),
            { p != from && !visited.contains(&p) };
        let ghost target = unvisited_from(self.visited@, from);
        let r = self.bfs_to(from, goal, Ghost(target));
        proof {
            if let Some(p) = &r {
                assert(p@.len() >= 2);
                assert forall|i: int| 0 < i < p@.len() - 1 implies self.visited@.contains(
                    #[trigger] p@[i],
                ) by {
                    assert(!target(p@[i]));
                    assert(p@[i] != p@[0]);
                }
            }
        }
        r
    }


    /// Follows the search tree's parent links back from `n` to `from` and
    /// returns the walk from `from` to `n` along them: `n`'s tree walk.
    fn route_to(
        came_from: &HashMap<ID, ID>,
        n: ID,
        Ghost(from): Ghost<ID>,
        Ghost(g): Ghost<Map<ID, Vec<ID>>>,
        Ghost(seen): Ghost<Set<ID>>,
        Ghost(dist): Ghost<Map<ID, nat>>,
        Ghost(canon): Ghost<Map<ID, Seq<ID>>>,
    ) -> (route: Vec<ID>)
        requires
            search_tree(g, from, seen, dist, came_from@),
            tree_walks(g, from, seen, dist, came_from@, canon),
            seen.contains(n),
        ensures
            route@ == canon[n],
    {
        let mut path: Vec<ID> = Vec::new();
        path.push(n);
        let mut walk: ID = n;
        proof {
            assert(canon[n].take(dist[n] as int + 1) =~= canon[n]);
        }
        loop
            invariant
                search_tree(g, from, seen, dist, came_from@),
                tree_walks(g, from, seen, dist, came_from@, canon),
                seen.contains(n),
                seen.contains(walk),
                path@.len() >= 1,
                path@.len() + dist[walk] == dist[n] + 1,
                canon[n].take(dist[walk] as int + 1) == canon[walk],
                forall|k: int|
                    0 <= k < path@.len() ==> #[trigger] path@[k] == canon[n][dist[n] - k],
            ensures
                !came_from@.contains_key(walk),
            decreases dist[walk],
        {
            match came_from.get(&walk) {
                Some(p) => {
                    let p = *p;
                    path.push(p);
                    proof {
                        assert(seen.contains(p) && dist[p] + 1 == dist[walk]);
                        assert(canon[walk].len() == dist[walk] + 1);
                        assert(canon[n].len() == dist[n] + 1);
                        assert(canon[walk] == canon[p].push(walk));
                        assert(canon[n].take(dist[p] as int + 1) =~= canon[walk].take(
                            dist[p] as int + 1,
                        ));
                        assert(canon[walk].take(dist[p] as int + 1) =~= canon[p]);
                        assert(canon[p].last() == p);
                        assert(canon[n][dist[p] as int] == canon[walk][dist[p] as int]);
                    }
                    walk = p;
                },
                None => {
                    break ;
                },
            }
        }
        let mut route: Vec<ID> = Vec::new();
        let mut k: usize = path.len();
        while k > 0
            invariant
                0 <= k <= path@.len(),
                route@.len() + k == path@.len(),
                forall|j: int| 0 <= j < route@.len() ==> route@[j] == path@[path@.len() - 1 - j],
            decreases k,
        {
            k = k - 1;
            route.push(path[k]);
        }
        proof {
            assert(walk == from);
            let len = path@.len();
            assert forall|j: int| 0 <= j < route@.len() implies route@[j] == canon[n][j] by {
                assert(route@[j] == path@[len - 1 - j]);
            }
            assert(route@ =~= canon[n]);
        }
        route
    }

    /// Breadth-first search from `from` for a planet satisfying `goal`,
    /// walking neighbor lists in their order. Returns the route to the
    /// first such planet discovered: a nearest one, reached by the route
    /// that comes first in the order of the neighbor lists.
    fn bfs_to(
        &self,
        from: ID,
        goal: impl Fn(ID) -> bool,
        Ghost(target): Ghost<spec_fn(ID) -> bool>,
    ) -> (r: Option<Vec<ID>>)
        requires
            forall|x: ID| #[trigger] goal.requires((x,)),
            forall|x: ID, b: bool| goal.ensures((x,), b) ==> b == target(x),
        ensures
            match r {
                Some(p) => {
                    &&& is_first_found_route(self.neighbors@, from, target, p@)
                    &&& p@.no_duplicates()
                    &&& forall|i: int| 0 <= i < p@.len() - 1 ==> !target(#[trigger] p@[i])
                },
                None => !goal_reachable(self.neighbors@, from, target),
            },
    {
        let ghost g = self.neighbors@;
        if goal(from) {
            let mut single: Vec<ID> = Vec::new();
            single.push(from);
            proof {
                assert forall|q: Seq<ID>| #[trigger] is_route(g, from, target, q) implies {
                    &&& single@.len() <= q.len()
                    &&& q.len() == single@.len() ==> lex_le(hop_indices(g, single@), hop_indices(g, q))
                } by {
                    if q.len() == 1 {
                        assert(q =~= single@);
                    }
                }
            }
            return Some(single);
        }
        let mut queue: VecDeque<ID> = VecDeque::new();
        let mut came_from: HashMap<ID, ID> = HashMap::new();
        let mut seen: HashSet<ID> = HashSet::new();
        queue.push_back(from);
        seen.insert(from);
        let ghost mut dist: Map<ID, nat> = map![from => 0nat];
        let ghost mut done: Set<ID> = Set::empty();
        let ghost mut canon: Map<ID, Seq<ID>> = map![from => seq![from]];
        proof {
            lemma_search_start(g, from);
            assert(seen@ =~= set![from]);
            assert(queue@ =~= seq![from]);
            assert(came_from@ =~= Map::<ID, ID>::empty());
        }
        loop
            invariant
                g == self.neighbors@,
                forall|x: ID| #[trigger] goal.requires((x,)),
                forall|x: ID, b: bool| goal.ensures((x,), b) ==> b == target(x),
                searching(g, from, seen@, dist, came_from@, canon, done, queue@),
                forall|x: ID| #[trigger] seen@.contains(x) ==> !target(x),
                seen@.len() == seen.len(),
            decreases usize::MAX - seen@.len(), queue@.len(),
        {
            let ghost old_queue = queue@;
            let ghost old_seen_len = seen@.len();
            let cur = match queue.pop_front() {
                Some(c) => c,
                None => {
                    proof {
                        lemma_search_exhausted(
                            g,
                            from,
                            seen@,
                            dist,
                            came_from@,
                            canon,
                            done,
                            target,
                        );
                    }
                    return None;
                },
            };
            match self.neighbors.get(&cur) {
                None => {
                    proof {
                        lemma_finish_unlisted(
                            g,
                            from,
                            seen@,
                            dist,
                            came_from@,
                            canon,
                            done,
                            old_queue,
                        );
                        done = done.insert(cur);
                    }
                },
                Some(neighbors) => {
                    let ghost h = dist[cur] as int;
                    proof {
                        lemma_expand_start(
                            g,
                            from,
                            seen@,
                            dist,
                            came_from@,
                            canon,
                            done,
                            old_queue,
                        );
                    }
                    let mut i: usize = 0;
                    while i < neighbors.len()
                        invariant
                            g == self.neighbors@,
                            forall|x: ID| #[trigger] goal.requires((x,)),
                            forall|x: ID, b: bool| goal.ensures((x,), b) ==> b == target(x),
                            expanding(
                                g,
                                from,
                                seen@,
                                dist,
                                came_from@,
                                canon,
                                done,
                                queue@,
                                cur,
                                h,
                                neighbors@,
                                i as int,
                            ),
                            forall|x: ID| #[trigger] seen@.contains(x) ==> !target(x),
                            seen@.len() == seen.len(),
                            seen@.len() >= old_seen_len,
                            seen@.len() == old_seen_len ==> queue@.len() < old_queue.len(),
                        decreases neighbors.len() - i,
                    {
                        let n = neighbors[i];
                        let ghost seen_before = seen@;
                        let ghost dist_before = dist;
                        let ghost canon_before = canon;
                        let ghost came_before = came_from@;
                        let ghost queue_before = queue@;
                        if seen.insert(n) {
                            came_from.insert(n, cur);
                            proof {
                                lemma_discover(
                                    g,
                                    from,
                                    seen_before,
                                    dist_before,
                                    came_before,
                                    canon_before,
                                    done,
                                    queue_before,
                                    cur,
                                    h,
                                    neighbors@,
                                    i as int,
                                );
                                dist = dist.insert(n, (h + 1) as nat);
                                canon = canon.insert(n, canon_before[cur].push(n));
                            }
                            if goal(n) {
                                proof {
                                    lemma_found_is_first(
                                        g,
                                        from,
                                        seen_before,
                                        dist_before,
                                        came_before,
                                        canon_before,
                                        done,
                                        queue_before,
                                        cur,
                                        h,
                                        neighbors@,
                                        i as int,
                                        target,
                                    );
                                }
                                let route = Self::route_to(
                                    &came_from,
                                    n,
                                    Ghost(from),
                                    Ghost(g),
                                    Ghost(seen@),
                                    Ghost(dist),
                                    Ghost(canon),
                                );
                                return Some(route);
                            }
                            queue.push_back(n);
                        } else {
                            proof {
                                assert(seen@ =~= seen_before);
                                lemma_skip_seen(
                                    g,
                                    from,
                                    seen@,
                                    dist,
                                    came_from@,
                                    canon,
                                    done,
                                    queue@,
                                    cur,
                                    h,
                                    neighbors@,
                                    i as int,
                                );
                            }
                        }
                        i = i + 1;
                    }
                    proof {
                        lemma_expand_end(
                            g,
                            from,
                            seen@,
                            dist,
                            came_from@,
                            canon,
                            done,
                            queue@,
                            cur,
                            h,
                            neighbors@,
                        );
                        done = done.insert(cur);
                    }
                },
            }
        }
    }
}

} // verus!
