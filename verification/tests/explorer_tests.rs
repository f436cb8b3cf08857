use std::collections::HashSet;

use clerk::explorer::{
    Command, Explorer, GenerateReply, OrchestratorMessage, ResourcesReply, Tick, ToOrchestrator,
};
use clerk::resource::ResourceKind;

fn started() -> Explorer {
    let mut e = Explorer::new(2, 100);
    e.handle_orchestrator_message(OrchestratorMessage::StartExplorerAI);
    e
}

#[test]
fn new_explorer_stands_on_its_visited_start() {
    let e = Explorer::new(2, 100);
    assert_eq!(e.id(), 2);
    assert_eq!(e.current_planet_id(), 100);
    assert!(!e.ai_active());
    assert!(!e.should_stop());
    assert!(e.world().visited.contains(&100));
    assert_eq!(e.world().visited.len(), 1);
    assert_eq!(e.current_leader(), None);
    assert!(matches!(
        e.startup_message(),
        ToOrchestrator::CurrentPlanetResult { explorer_id: 2, planet_id: 100 }
    ));
}

#[test]
fn start_stop_and_kill_are_acknowledged() {
    let mut e = Explorer::new(2, 100);
    let c = e.handle_orchestrator_message(OrchestratorMessage::StartExplorerAI);
    assert!(matches!(c, Command::Send(ToOrchestrator::StartExplorerAIResult { explorer_id: 2 })));
    assert!(e.ai_active());
    let c = e.handle_orchestrator_message(OrchestratorMessage::StopExplorerAI);
    assert!(matches!(c, Command::Send(ToOrchestrator::StopExplorerAIResult { explorer_id: 2 })));
    assert!(!e.ai_active());
    let c = e.handle_orchestrator_message(OrchestratorMessage::KillExplorer);
    assert!(matches!(c, Command::Send(ToOrchestrator::KillExplorerResult { explorer_id: 2 })));
    assert!(e.should_stop());
}

#[test]
fn orchestrator_gone_stops_the_explorer() {
    let mut e = Explorer::new(2, 100);
    e.on_orchestrator_gone();
    assert!(e.should_stop());
}

#[test]
fn accepted_move_changes_planet_and_resets_visit() {
    let mut e = started();
    e.on_generate_reply(GenerateReply::Generated(ResourceKind::Oxygen)).unwrap();
    assert_eq!(e.mined_here_this_visit().len(), 1);
    let c = e.handle_orchestrator_message(OrchestratorMessage::MoveToPlanet { accepted: true, planet_id: 7 });
    assert!(matches!(
        c,
        Command::Send(ToOrchestrator::MovedToPlanetResult { explorer_id: 2, planet_id: 7 })
    ));
    assert_eq!(e.current_planet_id(), 7);
    assert!(e.world().visited.contains(&7));
    assert!(e.world().visited.contains(&100));
    assert!(e.mined_here_this_visit().is_empty());
    assert_eq!(e.current_leader(), Some((ResourceKind::Oxygen, 1)));
}

#[test]
fn rejected_move_reports_the_current_planet() {
    let mut e = started();
    let c = e.handle_orchestrator_message(OrchestratorMessage::MoveToPlanet { accepted: false, planet_id: 7 });
    assert!(matches!(
        c,
        Command::Send(ToOrchestrator::MovedToPlanetResult { explorer_id: 2, planet_id: 100 })
    ));
    assert_eq!(e.current_planet_id(), 100);
    assert!(!e.world().visited.contains(&7));
}

#[test]
fn reset_forgets_visits_but_keeps_the_ledger() {
    let mut e = started();
    e.handle_orchestrator_message(OrchestratorMessage::MoveToPlanet { accepted: true, planet_id: 7 });
    e.on_generate_reply(GenerateReply::Generated(ResourceKind::Carbon)).unwrap();
    let c = e.handle_orchestrator_message(OrchestratorMessage::ResetExplorerAI);
    assert!(matches!(c, Command::Send(ToOrchestrator::ResetExplorerAIResult { explorer_id: 2 })));
    assert!(!e.ai_active());
    assert_eq!(e.world().visited, HashSet::from([7]));
    assert!(e.mined_here_this_visit().is_empty());
    assert_eq!(e.current_leader(), Some((ResourceKind::Carbon, 1)));
}

#[test]
fn combine_is_always_refused() {
    let mut e = started();
    let c = e.handle_orchestrator_message(OrchestratorMessage::CombineResourceRequest);
    match c {
        Command::Send(ToOrchestrator::CombineResourceResponse { explorer_id, generated }) => {
            assert_eq!(explorer_id, 2);
            assert_eq!(generated, Err("Clerk cannot combine resources".to_string()));
        }
        other => panic!("unexpected {:?}", other),
    }
}

#[test]
fn requests_for_the_planet_are_passed_on() {
    let mut e = started();
    assert!(matches!(
        e.handle_orchestrator_message(OrchestratorMessage::CurrentPlanetRequest),
        Command::Send(ToOrchestrator::CurrentPlanetResult { explorer_id: 2, planet_id: 100 })
    ));
    assert!(matches!(
        e.handle_orchestrator_message(OrchestratorMessage::SupportedResourceRequest),
        Command::QuerySupportedResources
    ));
    assert!(matches!(
        e.handle_orchestrator_message(OrchestratorMessage::SupportedCombinationRequest),
        Command::QuerySupportedCombinations
    ));
    assert!(matches!(
        e.handle_orchestrator_message(OrchestratorMessage::GenerateResourceRequest {
            to_generate: ResourceKind::Silicon
        }),
        Command::Generate(ResourceKind::Silicon)
    ));
    assert!(matches!(
        e.handle_orchestrator_message(OrchestratorMessage::BagContentRequest),
        Command::Unhandled
    ));
}

#[test]
fn neighbors_response_is_recorded_for_the_current_planet() {
    let mut e = started();
    let c = e.handle_orchestrator_message(OrchestratorMessage::NeighborsResponse { neighbors: vec![5, 6] });
    assert!(matches!(c, Command::Nothing));
    assert_eq!(e.world().neighbors.get(&100), Some(&vec![5, 6]));
}

#[test]
fn resources_reply_is_recorded_unless_the_planet_was_not_asked() {
    let mut e = started();
    // No link, or a request that could not be sent: nothing recorded.
    for unasked in [ResourcesReply::NoPlanetLink, ResourcesReply::PlanetGone] {
        let r = e.on_supported_resources(unasked);
        assert!(r.is_empty());
        assert!(e.world().resources.get(&100).is_none());
    }
    // So the planner keeps asking.
    assert!(matches!(e.ai_step(), Command::QueryResourcesHere));
    let r = e.on_supported_resources(ResourcesReply::Supported(HashSet::from([1u8, 2])));
    assert_eq!(r, HashSet::from([1u8, 2]));
    assert_eq!(e.world().resources.get(&100), Some(&HashSet::from([1u8, 2])));
    // A stopped planet, or no answer: recorded as nothing.
    for failure in [ResourcesReply::Stopped, ResourcesReply::NoAnswer] {
        let r = e.on_supported_resources(failure);
        assert!(r.is_empty());
        assert_eq!(e.world().resources.get(&100), Some(&HashSet::new()));
    }
}

#[test]
fn tick_follows_stop_and_ai_state() {
    let mut e = Explorer::new(2, 100);
    assert_eq!(e.next_tick(), Tick::Wait);
    e.handle_orchestrator_message(OrchestratorMessage::StartExplorerAI);
    assert_eq!(e.next_tick(), Tick::AiStep);
    e.handle_orchestrator_message(OrchestratorMessage::KillExplorer);
    assert_eq!(e.next_tick(), Tick::Stop);
    // Nothing brings it back.
    e.handle_orchestrator_message(OrchestratorMessage::StartExplorerAI);
    e.handle_orchestrator_message(OrchestratorMessage::ResetExplorerAI);
    assert_eq!(e.next_tick(), Tick::Stop);
}

#[test]
fn leader_over_a_history_ignores_resets_and_failures() {
    let mut e = started();
    e.on_generate_reply(GenerateReply::Generated(ResourceKind::Silicon)).unwrap();
    e.handle_orchestrator_message(OrchestratorMessage::ResetExplorerAI);
    let _ = e.on_generate_reply(GenerateReply::NotGenerated);
    e.on_generate_reply(GenerateReply::Generated(ResourceKind::Hydrogen)).unwrap();
    // Tie at one: Hydrogen sorts before Silicon.
    assert_eq!(e.current_leader(), Some((ResourceKind::Hydrogen, 1)));
    e.on_generate_reply(GenerateReply::Generated(ResourceKind::Silicon)).unwrap();
    assert_eq!(e.current_leader(), Some((ResourceKind::Silicon, 2)));
}

#[test]
fn generated_resource_is_counted_and_marked() {
    let mut e = started();
    let m = e.on_generate_reply(GenerateReply::Generated(ResourceKind::Hydrogen)).unwrap();
    assert_eq!(m.kind, ResourceKind::Hydrogen);
    assert_eq!(m.total, 1);
    assert_eq!(m.new_leader, Some((ResourceKind::Hydrogen, 1)));
    assert!(e.mined_here_this_visit().contains(&ResourceKind::Hydrogen.code()));
    let m = e.on_generate_reply(GenerateReply::Generated(ResourceKind::Hydrogen)).unwrap();
    assert_eq!(m.total, 2);
    assert_eq!(m.new_leader, None);
}

#[test]
fn failed_generation_reports_its_reason() {
    let mut e = started();
    let cases = [
        (GenerateReply::NoPlanetLink, "not currently linked to a planet"),
        (GenerateReply::PlanetUnreachable, "planet unreachable"),
        (GenerateReply::NotGenerated, "planet could not generate that resource"),
        (GenerateReply::Stopped, "planet is stopped"),
        (GenerateReply::NoAnswer, "no response from planet"),
    ];
    for (reply, text) in cases {
        match e.on_generate_reply(reply) {
            Err(s) => assert_eq!(s, text),
            Ok(m) => panic!("unexpected {:?}", m),
        }
    }
    assert_eq!(e.current_leader(), None);
    assert!(e.mined_here_this_visit().is_empty());
}

#[test]
fn ai_cycle_samples_then_moves_on() {
    let mut e = started();
    // Resources unknown: query them.
    assert!(matches!(e.ai_step(), Command::QueryResourcesHere));
    e.on_supported_resources(ResourcesReply::Supported(HashSet::from([
        ResourceKind::Oxygen.code(),
        ResourceKind::Carbon.code(),
    ])));
    // Mine each available kind once, first in name order.
    assert!(matches!(e.ai_step(), Command::Mine(ResourceKind::Carbon)));
    e.on_generate_reply(GenerateReply::Generated(ResourceKind::Carbon)).unwrap();
    assert!(matches!(e.ai_step(), Command::Mine(ResourceKind::Oxygen)));
    e.on_generate_reply(GenerateReply::Generated(ResourceKind::Oxygen)).unwrap();
    // Everything sampled, neighbors unknown.
    assert!(matches!(
        e.ai_step(),
        Command::Send(ToOrchestrator::NeighborsRequest { explorer_id: 2, current_planet_id: 100 })
    ));
    e.handle_orchestrator_message(OrchestratorMessage::NeighborsResponse { neighbors: vec![101] });
    assert!(matches!(
        e.ai_step(),
        Command::Send(ToOrchestrator::TravelToPlanetRequest {
            explorer_id: 2,
            current_planet_id: 100,
            dst_planet_id: 101
        })
    ));
}

#[test]
fn ai_cycle_restarts_round_when_map_is_exhausted() {
    let mut e = started();
    e.on_supported_resources(ResourcesReply::Supported(HashSet::from([ResourceKind::Silicon.code()])));
    e.on_generate_reply(GenerateReply::Generated(ResourceKind::Silicon)).unwrap();
    e.handle_orchestrator_message(OrchestratorMessage::NeighborsResponse { neighbors: vec![100] });
    assert!(matches!(e.ai_step(), Command::RoundRestarted));
    assert!(e.mined_here_this_visit().is_empty());
    assert!(matches!(e.ai_step(), Command::Mine(ResourceKind::Silicon)));
    assert_eq!(e.ledger().leader(), Some((ResourceKind::Silicon, 1)));
}
