use std::collections::HashSet;

use clerk::world::WorldModel;

fn world_with(edges: &[(u32, &[u32])], visited: &[u32]) -> WorldModel {
    let mut w = WorldModel::default();
    for (p, ns) in edges {
        w.record_neighbors(*p, ns.to_vec());
    }
    for v in visited {
        w.visited.insert(*v);
    }
    w
}

#[test]
fn record_neighbors_replaces_the_list() {
    let mut w = WorldModel::default();
    w.record_neighbors(1, vec![2, 3]);
    w.record_neighbors(1, vec![4]);
    assert_eq!(w.neighbors.get(&1), Some(&vec![4]));
    assert!(w.resources.is_empty());
}

#[test]
fn record_resources_replaces_the_set() {
    let mut w = WorldModel::default();
    w.record_resources(7, HashSet::from([0u8, 2]));
    w.record_resources(7, HashSet::from([3u8]));
    assert_eq!(w.resources.get(&7), Some(&HashSet::from([3u8])));
}

#[test]
fn nearest_unvisited_is_direct_neighbor() {
    let w = world_with(&[(1, &[2, 3])], &[1]);
    assert_eq!(w.nearest_unvisited(1), Some(vec![1, 2]));
}

#[test]
fn nearest_unvisited_skips_visited_planets() {
    let w = world_with(&[(1, &[2]), (2, &[1, 3]), (3, &[4])], &[1, 2, 3]);
    assert_eq!(w.nearest_unvisited(1), Some(vec![1, 2, 3, 4]));
}

#[test]
fn nearest_unvisited_prefers_the_shorter_route() {
    // 1 -> 2 -> 3 -> 9 and 1 -> 4 -> 9; 5 is reached in three steps via 4.
    let w = world_with(
        &[(1, &[2, 4]), (2, &[3]), (3, &[9]), (4, &[9, 5])],
        &[1, 2, 3, 4],
    );
    assert_eq!(w.nearest_unvisited(1), Some(vec![1, 4, 9]));
}

#[test]
fn nearest_unvisited_none_when_everything_known_is_visited() {
    let w = world_with(&[(1, &[2]), (2, &[1])], &[1, 2]);
    assert_eq!(w.nearest_unvisited(1), None);
}

#[test]
fn nearest_unvisited_none_without_neighbor_lists() {
    let w = world_with(&[], &[1]);
    assert_eq!(w.nearest_unvisited(1), None);
}

#[test]
fn nearest_unvisited_never_returns_the_start() {
    // The start itself is not visited, but it is never a destination.
    let w = world_with(&[(1, &[1])], &[]);
    assert_eq!(w.nearest_unvisited(1), None);
}

#[test]
fn nearest_unvisited_takes_the_first_listed_among_equals() {
    let w = world_with(&[(1, &[5, 6])], &[1]);
    assert_eq!(w.nearest_unvisited(1), Some(vec![1, 5]));
}

#[test]
fn nearest_unvisited_handles_cycles() {
    let w = world_with(
        &[(1, &[2]), (2, &[3]), (3, &[1, 2, 4])],
        &[1, 2, 3],
    );
    assert_eq!(w.nearest_unvisited(2), Some(vec![2, 3, 4]));
}

#[test]
fn nearest_unvisited_follows_the_earlier_branch_among_equals() {
    // Both 5 (via 2) and 4 (via 3) are two steps away; 2 is listed first.
    let w = world_with(&[(1, &[2, 3]), (2, &[5]), (3, &[4])], &[1, 2, 3]);
    assert_eq!(w.nearest_unvisited(1), Some(vec![1, 2, 5]));
    // Listing 3 first flips the choice.
    let w = world_with(&[(1, &[3, 2]), (2, &[5]), (3, &[4])], &[1, 2, 3]);
    assert_eq!(w.nearest_unvisited(1), Some(vec![1, 3, 4]));
}

#[test]
fn nearest_unvisited_goes_through_visited_planets_only() {
    let w = world_with(&[(1, &[2, 3]), (2, &[4]), (3, &[4]), (4, &[6])], &[1, 2, 3, 4]);
    let route = w.nearest_unvisited(1).unwrap();
    assert_eq!(route, vec![1, 2, 4, 6]);
    for p in &route[1..route.len() - 1] {
        assert!(w.visited.contains(p));
    }
}
