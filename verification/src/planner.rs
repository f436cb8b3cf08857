//! Turns (current planet, world model, this visit's mining progress) into
//! one action per cycle. Recomputed every cycle: Clerk samples every basic
//! resource available where he stands, then wanders to broaden the map.
use std::collections::HashSet;

use common_game::utils::ID;
use vstd::prelude::*;

use crate::resource::{lemma_code_bijective, ResourceKind, KIND_COUNT};
use crate::routes::{
    edge, goal_reachable, is_nearest_unvisited_route, lemma_first_found_route_unique, step_ok,
    unvisited_from,
};
use crate::world::WorldModel;

verus! {

/// What the explorer does next.
#[derive(Debug, Clone, Copy, PartialEq, Eq, Structural)]
pub enum Action {
    /// The current planet's resource set is not known yet: ask the planet.
    QueryResourcesHere,
    /// Mine this basic resource kind from the current planet.
    Mine(ResourceKind),
    /// Head towards this neighbor, the first step on a route to the nearest
    /// unvisited planet.
    ExploreTowards(ID),
    /// The current planet's neighbor list is not known yet: ask for it.
    RequestNeighbors,
    /// No unvisited planet can be reached with what is known: clear this
    /// visit's progress and go round again on the current planet.
    RestartMiningRound,
}

/// `k` is available (its code is in `available`) and not mined this visit.
pub open spec fn mineable(available: Set<u8>, mined: Set<u8>, k: ResourceKind) -> bool {
    available.contains(k.code()) && !mined.contains(k.code())
}

/// `k` is the mineable kind that comes first in code order.
pub open spec fn first_mineable(available: Set<u8>, mined: Set<u8>, k: ResourceKind) -> bool {
    &&& mineable(available, mined, k)
    &&& forall|j: ResourceKind| #[trigger] mineable(available, mined, j) ==> k.code() <= j.code()
}

/// The action once the current planet has nothing left to sample: ask for
/// its neighbors while they are unknown, head for the nearest unvisited
/// planet while one can be reached, and otherwise start a new round here.
pub open spec fn explore_choice(
    neighbors: Map<ID, Vec<ID>>,
    visited: Set<ID>,
    current: ID,
    a: Action,
) -> bool {
    if !neighbors.contains_key(current) {
        a == Action::RequestNeighbors
    } else if goal_reachable(neighbors, current, unvisited_from(visited, current)) {
        exists|p: Seq<ID>|
            #[trigger] is_nearest_unvisited_route(neighbors, visited, current, p) && a
                == Action::ExploreTowards(p[1])
    } else {
        a == Action::RestartMiningRound
    }
}

/// The planner's choice for one cycle: query the resources while they are
/// unknown, mine the first kind available and not yet mined this visit,
/// and otherwise explore.
pub open spec fn planned_action(
    neighbors: Map<ID, Vec<ID>>,
    resources: Map<ID, HashSet<u8>>,
    visited: Set<ID>,
    mined: Set<u8>,
    current: ID,
    a: Action,
) -> bool {
    if !resources.contains_key(current) {
        a == Action::QueryResourcesHere
    } else if exists|k: ResourceKind| mineable(resources[current]@, mined, k) {
        exists|k: ResourceKind| #[trigger]
            first_mineable(resources[current]@, mined, k) && a == Action::Mine(k)
    } else {
        explore_choice(neighbors, visited, current, a)
    }
}

/// The per-cycle planner.
pub struct Planner;

impl Planner {
    /// Chooses the next action from the current planet, the world model and
    /// the kinds mined on this visit.
    pub fn next_action(
        current_planet: ID,
        world: &WorldModel,
        mined_here_this_visit: &HashSet<u8>,
    ) -> (a: Action)
        ensures
            planned_action(
                world.neighbors@,
                world.resources@,
                world.visited@,
                mined_here_this_visit@,
                current_planet,
                a,
            ),
    {
        match world.resources.get(&current_planet) {
            None => Action::QueryResourcesHere,
            Some(available) => {
                if available.is_empty() {
                    proof {
                        assert forall|k: ResourceKind|
                            !mineable(available@, mined_here_this_visit@, k) by {
                            assert(!available@.contains(k.code()));
                        }
                    }
                    return Self::explore_or_request(current_planet, world);
                }
                match Self::first_unmined(available, mined_here_this_visit) {
                    Some(r) => Action::Mine(r),
                    None => Self::explore_or_request(current_planet, world),
                }
            },
        }
    }

    /// The available kind, first in code order, not mined this visit.
    fn first_unmined(available: &HashSet<u8>, mined: &HashSet<u8>) -> (r: Option<ResourceKind>)
        ensures
            r is None <==> forall|k: ResourceKind| !mineable(available@, mined@, k),
            r matches Some(k) ==> first_mineable(available@, mined@, k),
    {
        let mut c: u8 = 0;
        while c < KIND_COUNT
            invariant
                c <= KIND_COUNT,
                forall|j: ResourceKind|
                    j.code() < c ==> !#[trigger] mineable(available@, mined@, j),
            decreases KIND_COUNT - c,
        {
            if available.contains(&c) && !mined.contains(&c) {
                let k = ResourceKind::from_code(c).unwrap();
                assert(mineable(available@, mined@, k));
                return Some(k);
            }
            proof {
                assert forall|j: ResourceKind| j.code() == c implies !#[trigger] mineable(
                    available@,
                    mined@,
                    j,
                ) by {}
            }
            c = c + 1;
        }
        proof {
            assert forall|k: ResourceKind| !mineable(available@, mined@, k) by {
                lemma_code_bijective(k, k);
            }
        }
        None
    }

    /// Asks for the neighbors while they are unknown; otherwise heads for
    /// the nearest unvisited planet, or starts a new round on this one when
    /// none can be reached.
    fn explore_or_request(current_planet: ID, world: &WorldModel) -> (a: Action)
        ensures
            explore_choice(world.neighbors@, world.visited@, current_planet, a),
    {
        match world.neighbors.get(&current_planet) {
            None => Action::RequestNeighbors,
            Some(_) => match world.nearest_unvisited(current_planet) {
                Some(path) => {
                    if path.len() > 1 {
                        let a = Action::ExploreTowards(path[1]);
                        proof {
                            assert(is_nearest_unvisited_route(
                                world.neighbors@,
                                world.visited@,
                                current_planet,
                                path@,
                            ));
                        }
                        a
                    } else {
                        Action::RestartMiningRound
                    }
                },
                None => Action::RestartMiningRound,
            },
        }
    }
}

/// When the planner heads somewhere, it is to a known neighbor of the
/// current planet.
pub proof fn lemma_explore_targets_a_neighbor(
    neighbors: Map<ID, Vec<ID>>,
    resources: Map<ID, HashSet<u8>>,
    visited: Set<ID>,
    mined: Set<u8>,
    current: ID,
    dst: ID,
)
    requires
        planned_action(neighbors, resources, visited, mined, current, Action::ExploreTowards(dst)),
    ensures
        edge(neighbors, current, dst),
{
    let a = Action::ExploreTowards(dst);
    assert(explore_choice(neighbors, visited, current, a));
    let p = choose|p: Seq<ID>|
        #[trigger] is_nearest_unvisited_route(neighbors, visited, current, p) && a
            == Action::ExploreTowards(p[1]);
    assert(step_ok(neighbors, p, 0));
}

/// The planner never asks to mine a kind already mined on this visit, nor
/// one the current planet does not offer.
pub proof fn lemma_mines_only_fresh_available(
    neighbors: Map<ID, Vec<ID>>,
    resources: Map<ID, HashSet<u8>>,
    visited: Set<ID>,
    mined: Set<u8>,
    current: ID,
    k: ResourceKind,
)
    requires
        planned_action(neighbors, resources, visited, mined, current, Action::Mine(k)),
    ensures
        resources.contains_key(current),
        resources[current]@.contains(k.code()),
        !mined.contains(k.code()),
{
    if resources.contains_key(current) && !(exists|j: ResourceKind|
        mineable(resources[current]@, mined, j)) {
        assert(explore_choice(neighbors, visited, current, Action::Mine(k)));
        if neighbors.contains_key(current) && goal_reachable(
            neighbors,
            current,
            unvisited_from(visited, current),
        ) {
            let p = choose|p: Seq<ID>|
                #[trigger] is_nearest_unvisited_route(neighbors, visited, current, p)
                    && Action::Mine(k) == Action::ExploreTowards(p[1]);
        }
    }
}

/// The planner's choice is determined: for one state there is only one
/// planned action.
pub proof fn lemma_planned_action_unique(
    neighbors: Map<ID, Vec<ID>>,
    resources: Map<ID, HashSet<u8>>,
    visited: Set<ID>,
    mined: Set<u8>,
    current: ID,
    a1: Action,
    a2: Action,
)
    requires
        planned_action(neighbors, resources, visited, mined, current, a1),
        planned_action(neighbors, resources, visited, mined, current, a2),
    ensures
        a1 == a2,
{
    if resources.contains_key(current) {
        let av = resources[current]@;
        if exists|k: ResourceKind| mineable(av, mined, k) {
            let k1 = choose|k: ResourceKind| #[trigger]
                first_mineable(av, mined, k) && a1 == Action::Mine(k);
            let k2 = choose|k: ResourceKind| #[trigger]
                first_mineable(av, mined, k) && a2 == Action::Mine(k);
            assert(mineable(av, mined, k1) && mineable(av, mined, k2));
            lemma_code_bijective(k1, k2);
        } else if neighbors.contains_key(current) && goal_reachable(
            neighbors,
            current,
            unvisited_from(visited, current),
        ) {
            let p1 = choose|p: Seq<ID>|
                #[trigger] is_nearest_unvisited_route(neighbors, visited, current, p)
                    && a1 == Action::ExploreTowards(p[1]);
            let p2 = choose|p: Seq<ID>|
                #[trigger] is_nearest_unvisited_route(neighbors, visited, current, p)
                    && a2 == Action::ExploreTowards(p[1]);
            lemma_first_found_route_unique(
                neighbors,
                current,
                unvisited_from(visited, current),
                p1,
                p2,
            );
        }
    }
}

} // verus!
