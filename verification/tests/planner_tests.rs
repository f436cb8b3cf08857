use std::collections::HashSet;

use clerk::planner::{Action, Planner};
use clerk::resource::ResourceKind;
use clerk::world::WorldModel;

fn codes(kinds: &[ResourceKind]) -> HashSet<u8> {
    kinds.iter().map(|k| k.code()).collect()
}

#[test]
fn unknown_resources_are_queried() {
    let w = WorldModel::default();
    assert_eq!(Planner::next_action(1, &w, &HashSet::new()), Action::QueryResourcesHere);
}

#[test]
fn mines_an_available_kind_not_yet_mined() {
    let mut w = WorldModel::default();
    w.record_resources(1, codes(&[ResourceKind::Oxygen, ResourceKind::Hydrogen]));
    let mined = codes(&[ResourceKind::Hydrogen]);
    assert_eq!(Planner::next_action(1, &w, &mined), Action::Mine(ResourceKind::Oxygen));
}

#[test]
fn mines_the_first_kind_in_name_order() {
    let mut w = WorldModel::default();
    w.record_resources(
        1,
        codes(&[ResourceKind::Silicon, ResourceKind::Oxygen, ResourceKind::Carbon]),
    );
    assert_eq!(
        Planner::next_action(1, &w, &HashSet::new()),
        Action::Mine(ResourceKind::Carbon)
    );
}

#[test]
fn everything_sampled_and_neighbors_unknown_requests_neighbors() {
    let mut w = WorldModel::default();
    w.record_resources(1, codes(&[ResourceKind::Carbon]));
    let mined = codes(&[ResourceKind::Carbon]);
    assert_eq!(Planner::next_action(1, &w, &mined), Action::RequestNeighbors);
}

#[test]
fn empty_planet_with_unknown_neighbors_requests_neighbors() {
    let mut w = WorldModel::default();
    w.record_resources(1, HashSet::new());
    assert_eq!(Planner::next_action(1, &w, &HashSet::new()), Action::RequestNeighbors);
}

#[test]
fn everything_sampled_explores_towards_nearest_unvisited() {
    let mut w = WorldModel::default();
    w.visited.insert(1);
    w.visited.insert(2);
    w.record_resources(1, HashSet::new());
    w.record_neighbors(1, vec![2]);
    w.record_neighbors(2, vec![3]);
    assert_eq!(Planner::next_action(1, &w, &HashSet::new()), Action::ExploreTowards(2));
}

#[test]
fn nothing_left_to_explore_restarts_the_round() {
    let mut w = WorldModel::default();
    w.visited.insert(1);
    w.visited.insert(2);
    w.record_resources(1, codes(&[ResourceKind::Oxygen]));
    w.record_neighbors(1, vec![2]);
    w.record_neighbors(2, vec![1]);
    let mined = codes(&[ResourceKind::Oxygen]);
    assert_eq!(Planner::next_action(1, &w, &mined), Action::RestartMiningRound);
}

#[test]
fn codes_of_no_kind_count_as_nothing_to_mine() {
    let mut w = WorldModel::default();
    w.record_resources(1, HashSet::from([9u8]));
    assert_eq!(Planner::next_action(1, &w, &HashSet::new()), Action::RequestNeighbors);
}
