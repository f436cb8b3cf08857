//! Laws over whole runs of the explorer's driver: each iteration handles
//! one orchestrator message or takes one AI tick, carries out the command
//! that results (asking the current planet where the command says so) and
//! sends what the command calls for to the orchestrator.
use std::collections::HashSet;

use vstd::prelude::*;

use crate::explorer::{
    executes, handles, lemma_tick_stops_only_when_stopped, takes_generated, takes_resources,
    tick_for, Command, ExplorerView,
    GenerateReply, Mined, OrchestratorMessage, ResourcesReply, Tick, ToOrchestrator,
};
use crate::ledger::{count_in, leader_of, leads, lemma_leader_exists, tally_after};
use crate::planner::{lemma_planned_action_unique, planned_action, Action};
use crate::resource::{lemma_code_bijective, ResourceKind};

verus! {

/// The current planet's answer to what the explorer asked it during one
/// iteration.
pub enum PlanetAnswer {
    /// The answer to a resources request.
    Resources(ResourcesReply),
    /// The answer to a generate request.
    Generate(GenerateReply),
    /// The planet was not asked anything.
    NotAsked,
}

/// One iteration of the driver.
pub enum DriverEvent {
    /// An orchestrator message is handled; the planet gives `PlanetAnswer`
    /// to whatever the handling asked it.
    Message(OrchestratorMessage, PlanetAnswer),
    /// The tick takes an AI step; the planet gives `PlanetAnswer` to
    /// whatever the step asked it.
    AiTick(PlanetAnswer),
    /// The orchestrator's channel closed.
    OrchestratorGone,
}

/// What one iteration sends to the orchestrator.
pub enum Sent {
    /// A message the explorer composed by itself.
    Message(ToOrchestrator),
    /// The current planet's basic resources, as kind codes.
    SupportedResources(HashSet<u8>),
    /// The current planet's combinations, relayed as the planet gave them.
    SupportedCombinations,
    /// The outcome of a generate request.
    GenerateResponse(Result<(), String>),
}

/// The outcome of a generate request as it is reported to the
/// orchestrator: success without the details, or the error.
pub open spec fn reported_outcome(r: Result<Mined, String>) -> Result<(), String> {
    match r {
        Ok(_) => Ok(()),
        Err(e) => Err(e),
    }
}

/// The driver carries out `cmd` from state `pre`, the planet giving `ans`:
/// the explorer ends in `post` and `sent` goes to the orchestrator. A
/// resources request is answered with what `on_supported_resources`
/// returns, a generate request with the outcome of `on_generate_reply`;
/// the AI's own queries and mining send nothing.
pub open spec fn serves(
    pre: ExplorerView,
    cmd: Command,
    ans: PlanetAnswer,
    post: ExplorerView,
    sent: Option<Sent>,
) -> bool {
    match cmd {
        Command::Send(m) => ans is NotAsked && post == pre && sent == Some(Sent::Message(m)),
        Command::QuerySupportedResources => match ans {
            PlanetAnswer::Resources(reply) => exists|s: HashSet<u8>|
                #[trigger] takes_resources(pre, reply, post, s@) && sent == Some(
                    Sent::SupportedResources(s),
                ),
            _ => false,
        },
        Command::QuerySupportedCombinations => {
            &&& ans is NotAsked
            &&& post == pre
            &&& sent == Some(Sent::SupportedCombinations)
        },
        Command::Generate(_) => match ans {
            PlanetAnswer::Generate(reply) => exists|r: Result<Mined, String>|
                #[trigger] takes_generated(pre, reply, post, r) && sent == Some(
                    Sent::GenerateResponse(reported_outcome(r)),
                ),
            _ => false,
        },
        Command::QueryResourcesHere => match ans {
            PlanetAnswer::Resources(reply) => exists|s: Set<u8>|
                #[trigger] takes_resources(pre, reply, post, s) && sent is None,
            _ => false,
        },
        Command::Mine(_) => match ans {
            PlanetAnswer::Generate(reply) => exists|r: Result<Mined, String>|
                #[trigger] takes_generated(pre, reply, post, r) && sent is None,
            _ => false,
        },
        _ => ans is NotAsked && post == pre && sent is None,
    }
}

/// One iteration of the driver takes the explorer from `pre` to `post`,
/// sending `sent`. An AI step happens only on a tick that calls for one:
/// while the AI is active and the explorer has not stopped.
pub open spec fn driver_step(pre: ExplorerView, ev: DriverEvent, post: ExplorerView, sent: Option<Sent>) -> bool {
    match ev {
        DriverEvent::Message(msg, ans) => exists|mid: ExplorerView, cmd: Command|
            #[trigger] handles(pre, msg, mid, cmd) && serves(mid, cmd, ans, post, sent),
        DriverEvent::AiTick(ans) => {
            &&& tick_for(pre) == Tick::AiStep
            &&& exists|a: Action, mid: ExplorerView, cmd: Command|
                #![trigger executes(pre, a, mid, cmd)]
                planned_action(
                    pre.neighbors,
                    pre.resources,
                    pre.visited,
                    pre.mined_here,
                    pre.current_planet_id,
                    a,
                ) && executes(pre, a, mid, cmd) && serves(mid, cmd, ans, post, sent)
        },
        DriverEvent::OrchestratorGone => {
            &&& post == ExplorerView { should_stop: true, ..pre }
            &&& sent is None
        },
    }
}

/// `states` is a run of the driver by `events`, sending `sents`.
pub open spec fn is_driver_run(
    states: Seq<ExplorerView>,
    events: Seq<DriverEvent>,
    sents: Seq<Option<Sent>>,
) -> bool {
    &&& states.len() == events.len() + 1
    &&& sents.len() == events.len()
    &&& forall|i: int|
        0 <= i < events.len() ==> #[trigger] driver_step(states[i], events[i], states[i + 1], sents[i])
}

/// The kind a planet generated in one iteration, if it generated one.
pub open spec fn generated_by(ev: DriverEvent) -> Option<ResourceKind> {
    match ev {
        DriverEvent::Message(_, PlanetAnswer::Generate(GenerateReply::Generated(k))) => Some(k),
        DriverEvent::AiTick(PlanetAnswer::Generate(GenerateReply::Generated(k))) => Some(k),
        _ => None,
    }
}

/// The kinds the planets generated over `events`, in order.
pub open spec fn generated_kinds(events: Seq<DriverEvent>) -> Seq<ResourceKind>
    decreases events.len(),
{
    if events.len() == 0 {
        Seq::empty()
    } else {
        let rest = generated_kinds(events.drop_last());
        match generated_by(events.last()) {
            Some(k) => rest.push(k),
            None => rest,
        }
    }
}

/// Whether the AI is on after `events`, starting from `init`: the last of
/// `StartExplorerAI`, `StopExplorerAI` and `ResetExplorerAI` decides.
pub open spec fn ai_on_after(init: bool, events: Seq<DriverEvent>) -> bool
    decreases events.len(),
{
    if events.len() == 0 {
        init
    } else {
        match events.last() {
            DriverEvent::Message(OrchestratorMessage::StartExplorerAI, _) => true,
            DriverEvent::Message(OrchestratorMessage::StopExplorerAI, _) => false,
            DriverEvent::Message(OrchestratorMessage::ResetExplorerAI, _) => false,
            _ => ai_on_after(init, events.drop_last()),
        }
    }
}

/// Whether the explorer has stopped after `events`, starting from `init`:
/// a `KillExplorer` or a closed orchestrator channel stops it for good.
pub open spec fn stopped_after(init: bool, events: Seq<DriverEvent>) -> bool
    decreases events.len(),
{
    if events.len() == 0 {
        init
    } else {
        match events.last() {
            DriverEvent::Message(OrchestratorMessage::KillExplorer, _) => true,
            DriverEvent::OrchestratorGone => true,
            _ => stopped_after(init, events.drop_last()),
        }
    }
}

/// What one iteration does to the tally, the AI flag and the stop flag, and
/// that only an AI tick sends a travel or neighbors request.
proof fn lemma_driver_step(pre: ExplorerView, ev: DriverEvent, post: ExplorerView, sent: Option<Sent>)
    requires
        driver_step(pre, ev, post, sent),
    ensures
        post.tally == match generated_by(ev) {
            Some(k) => tally_after(pre.tally, k),
            None => pre.tally,
        },
        post.ai_active == match ev {
            DriverEvent::Message(OrchestratorMessage::StartExplorerAI, _) => true,
            DriverEvent::Message(OrchestratorMessage::StopExplorerAI, _) => false,
            DriverEvent::Message(OrchestratorMessage::ResetExplorerAI, _) => false,
            _ => pre.ai_active,
        },
        post.should_stop == match ev {
            DriverEvent::Message(OrchestratorMessage::KillExplorer, _) => true,
            DriverEvent::OrchestratorGone => true,
            _ => pre.should_stop,
        },
        (sent matches Some(Sent::Message(ToOrchestrator::TravelToPlanetRequest { .. })))
            || (sent matches Some(Sent::Message(ToOrchestrator::NeighborsRequest { .. })))
            ==> ev is AiTick && pre.ai_active && !pre.should_stop,
{
    match ev {
        DriverEvent::Message(msg, ans) => {
            let (mid, cmd) = choose|mid: ExplorerView, cmd: Command|
                #[trigger] handles(pre, msg, mid, cmd) && serves(mid, cmd, ans, post, sent);
            lemma_serves(mid, cmd, ans, post, sent);
        },
        DriverEvent::AiTick(ans) => {
            let (a, mid, cmd) = choose|a: Action, mid: ExplorerView, cmd: Command|
                #![trigger executes(pre, a, mid, cmd)]
                planned_action(
                    pre.neighbors,
                    pre.resources,
                    pre.visited,
                    pre.mined_here,
                    pre.current_planet_id,
                    a,
                ) && executes(pre, a, mid, cmd) && serves(mid, cmd, ans, post, sent);
            lemma_serves(mid, cmd, ans, post, sent);
        },
        DriverEvent::OrchestratorGone => {},
    }
}

/// Carrying out a command changes at most the tally (by the generated kind),
/// the resources and this visit's mining; it sends a travel or neighbors
/// request only where the command is to send one.
proof fn lemma_serves(pre: ExplorerView, cmd: Command, ans: PlanetAnswer, post: ExplorerView, sent: Option<Sent>)
    requires
        serves(pre, cmd, ans, post, sent),
    ensures
        post.tally == match ans {
            PlanetAnswer::Generate(GenerateReply::Generated(k)) => tally_after(pre.tally, k),
            _ => pre.tally,
        },
        post.ai_active == pre.ai_active,
        post.should_stop == pre.should_stop,
        post.current_planet_id == pre.current_planet_id,
        post.id == pre.id,
        sent matches Some(Sent::Message(m)) ==> cmd == Command::Send(m),
{
    match cmd {
        Command::QuerySupportedResources => {
            if let PlanetAnswer::Resources(reply) = ans {
                let s = choose|s: HashSet<u8>|
                    #[trigger] takes_resources(pre, reply, post, s@) && sent == Some(
                        Sent::SupportedResources(s),
                    );
            }
        },
        Command::Generate(_) => {
            if let PlanetAnswer::Generate(reply) = ans {
                let r = choose|r: Result<Mined, String>|
                    #[trigger] takes_generated(pre, reply, post, r) && sent == Some(
                        Sent::GenerateResponse(reported_outcome(r)),
                    );
            }
        },
        Command::QueryResourcesHere => {
            if let PlanetAnswer::Resources(reply) = ans {
                let s = choose|s: Set<u8>|
                    #[trigger] takes_resources(pre, reply, post, s) && sent is None;
            }
        },
        Command::Mine(_) => {
            if let PlanetAnswer::Generate(reply) = ans {
                let r = choose|r: Result<Mined, String>|
                    #[trigger] takes_generated(pre, reply, post, r) && sent is None;
            }
        },
        _ => {},
    }
}

/// The prefix of a driver run is a driver run.
proof fn lemma_driver_run_prefix(
    states: Seq<ExplorerView>,
    events: Seq<DriverEvent>,
    sents: Seq<Option<Sent>>,
)
    requires
        is_driver_run(states, events, sents),
        events.len() > 0,
    ensures
        is_driver_run(states.drop_last(), events.drop_last(), sents.drop_last()),
        driver_step(
            states[events.len() - 1],
            events.last(),
            states.last(),
            sents.last(),
        ),
{
    let n = events.len() - 1;
    assert forall|i: int| 0 <= i < n implies #[trigger] driver_step(
        states.drop_last()[i],
        events.drop_last()[i],
        states.drop_last()[i + 1],
        sents.drop_last()[i],
    ) by {
        assert(driver_step(states[i], events[i], states[i + 1], sents[i]));
    }
    assert(driver_step(states[n], events[n], states[n + 1], sents[n]));
}

/// Over any run of the driver, the tally is that of the kinds the planets
/// generated, recorded in the order they came: messages, resets and AI
/// steps never change it otherwise.
pub proof fn lemma_run_tally(states: Seq<ExplorerView>, events: Seq<DriverEvent>, sents: Seq<Option<Sent>>)
    requires
        is_driver_run(states, events, sents),
        states[0].tally == Map::<ResourceKind, u32>::empty(),
    ensures
        states.last().tally == tally_of(generated_kinds(events)),
    decreases events.len(),
{
    if events.len() > 0 {
        lemma_driver_run_prefix(states, events, sents);
        lemma_run_tally(states.drop_last(), events.drop_last(), sents.drop_last());
        lemma_driver_step(states[events.len() - 1], events.last(), states.last(), sents.last());
        let ks2 = generated_kinds(events.drop_last());
        if let Some(k) = generated_by(events.last()) {
            assert(ks2.push(k).drop_last() =~= ks2);
        }
    }
}

/// Over any run of the driver, the AI is on exactly when the last of
/// `StartExplorerAI`, `StopExplorerAI` and `ResetExplorerAI` handled was a
/// start, and the explorer has stopped exactly when a `KillExplorer` was
/// handled or the orchestrator's channel closed.
pub proof fn lemma_run_flags(
    states: Seq<ExplorerView>,
    events: Seq<DriverEvent>,
    sents: Seq<Option<Sent>>,
    i: int,
)
    requires
        is_driver_run(states, events, sents),
        0 <= i < states.len(),
    ensures
        states[i].ai_active == ai_on_after(states[0].ai_active, events.take(i)),
        states[i].should_stop == stopped_after(states[0].should_stop, events.take(i)),
    decreases i,
{
    if i > 0 {
        lemma_run_flags(states, events, sents, i - 1);
        let k = i - 1;
        assert(driver_step(states[k], events[k], states[k + 1], sents[k]));
        lemma_driver_step(states[k], events[k], states[k + 1], sents[k]);
        assert(events.take(i).drop_last() =~= events.take(k));
        assert(events.take(i).last() == events[k]);
    } else {
        assert(events.take(0).len() == 0);
    }
}

/// Travel and neighbor requests go to the orchestrator only from AI ticks,
/// while the AI is on (the last of `StartExplorerAI`, `StopExplorerAI` and
/// `ResetExplorerAI` handled was a start, or the AI was on from the outset)
/// and before any `KillExplorer` or closed channel.
pub proof fn lemma_ai_requests_only_while_active(
    states: Seq<ExplorerView>,
    events: Seq<DriverEvent>,
    sents: Seq<Option<Sent>>,
    i: int,
)
    requires
        is_driver_run(states, events, sents),
        0 <= i < events.len(),
        (sents[i] matches Some(Sent::Message(ToOrchestrator::TravelToPlanetRequest { .. })))
            || (sents[i] matches Some(Sent::Message(ToOrchestrator::NeighborsRequest { .. }))),
    ensures
        events[i] is AiTick,
        states[i].ai_active,
        !states[i].should_stop,
        ai_on_after(states[0].ai_active, events.take(i)),
        !stopped_after(states[0].should_stop, events.take(i)),
{
    assert(driver_step(states[i], events[i], states[i + 1], sents[i]));
    lemma_driver_step(states[i], events[i], states[i + 1], sents[i]);
    lemma_run_flags(states, events, sents, i);
}

/// A `SupportedResourceRequest` is answered with what
/// `on_supported_resources` returns for the planet's answer, with its
/// effect on the explorer.
pub proof fn lemma_resources_request_answered(
    pre: ExplorerView,
    ans: PlanetAnswer,
    post: ExplorerView,
    sent: Option<Sent>,
)
    requires
        driver_step(pre, DriverEvent::Message(OrchestratorMessage::SupportedResourceRequest, ans), post, sent),
    ensures
        ans is Resources,
        exists|s: HashSet<u8>|
            #[trigger] takes_resources(pre, ans->Resources_0, post, s@) && sent == Some(
                Sent::SupportedResources(s),
            ),
{
    let msg = OrchestratorMessage::SupportedResourceRequest;
    let (mid, cmd) = choose|mid: ExplorerView, cmd: Command|
        #[trigger] handles(pre, msg, mid, cmd) && serves(mid, cmd, ans, post, sent);
}

/// A `GenerateResourceRequest` is answered with the outcome of
/// `on_generate_reply` for the planet's answer, with its effect on the
/// explorer.
pub proof fn lemma_generate_request_answered(
    pre: ExplorerView,
    k: ResourceKind,
    ans: PlanetAnswer,
    post: ExplorerView,
    sent: Option<Sent>,
)
    requires
        driver_step(
            pre,
            DriverEvent::Message(OrchestratorMessage::GenerateResourceRequest { to_generate: k }, ans),
            post,
            sent,
        ),
    ensures
        ans is Generate,
        exists|r: Result<Mined, String>|
            #[trigger] takes_generated(pre, ans->Generate_0, post, r) && sent == Some(
                Sent::GenerateResponse(reported_outcome(r)),
            ),
{
    let msg = OrchestratorMessage::GenerateResourceRequest { to_generate: k };
    let (mid, cmd) = choose|mid: ExplorerView, cmd: Command|
        #[trigger] handles(pre, msg, mid, cmd) && serves(mid, cmd, ans, post, sent);
}

/// A `CurrentPlanetRequest` is answered with the current planet and changes
/// nothing; a `SupportedCombinationRequest` is relayed to the planet and
/// changes nothing.
pub proof fn lemma_planet_requests_answered(
    pre: ExplorerView,
    msg: OrchestratorMessage,
    ans: PlanetAnswer,
    post: ExplorerView,
    sent: Option<Sent>,
)
    requires
        driver_step(pre, DriverEvent::Message(msg, ans), post, sent),
    ensures
        msg is CurrentPlanetRequest ==> post == pre && sent == Some(
            Sent::Message(
                ToOrchestrator::CurrentPlanetResult {
                    explorer_id: pre.id,
                    planet_id: pre.current_planet_id,
                },
            ),
        ),
        msg is SupportedCombinationRequest ==> post == pre && sent == Some(
            Sent::SupportedCombinations,
        ),
{
    let (mid, cmd) = choose|mid: ExplorerView, cmd: Command|
        #[trigger] handles(pre, msg, mid, cmd) && serves(mid, cmd, ans, post, sent);
}

/// An AI tick whose planned action is to mine has exactly the effect of
/// `on_generate_reply` on the planet's answer, and one whose planned action
/// is to query the resources exactly that of `on_supported_resources`;
/// neither sends anything to the orchestrator.
pub proof fn lemma_ai_planet_actions(
    pre: ExplorerView,
    ans: PlanetAnswer,
    post: ExplorerView,
    sent: Option<Sent>,
    a: Action,
)
    requires
        driver_step(pre, DriverEvent::AiTick(ans), post, sent),
        planned_action(
            pre.neighbors,
            pre.resources,
            pre.visited,
            pre.mined_here,
            pre.current_planet_id,
            a,
        ),
    ensures
        a is Mine ==> ans is Generate && sent is None && exists|r: Result<Mined, String>|
            #[trigger] takes_generated(pre, ans->Generate_0, post, r),
        a is QueryResourcesHere ==> ans is Resources && sent is None && exists|s: Set<u8>|
            #[trigger] takes_resources(pre, ans->Resources_0, post, s),
{
    let (a2, mid, cmd) = choose|a: Action, mid: ExplorerView, cmd: Command|
        #![trigger executes(pre, a, mid, cmd)]
        planned_action(
            pre.neighbors,
            pre.resources,
            pre.visited,
            pre.mined_here,
            pre.current_planet_id,
            a,
        ) && executes(pre, a, mid, cmd) && serves(mid, cmd, ans, post, sent);
    lemma_planned_action_unique(
        pre.neighbors,
        pre.resources,
        pre.visited,
        pre.mined_here,
        pre.current_planet_id,
        a,
        a2,
    );
}

/// The tally of the mined kinds `ks`, recorded one by one.
pub open spec fn tally_of(ks: Seq<ResourceKind>) -> Map<ResourceKind, u32>
    decreases ks.len(),
{
    if ks.len() == 0 {
        Map::empty()
    } else {
        tally_after(tally_of(ks.drop_last()), ks.last())
    }
}

/// How many times `k` occurs in `ks`.
pub open spec fn occurrences(ks: Seq<ResourceKind>, k: ResourceKind) -> nat
    decreases ks.len(),
{
    if ks.len() == 0 {
        0
    } else {
        occurrences(ks.drop_last(), k) + if ks.last() == k {
            1nat
        } else {
            0nat
        }
    }
}

/// The tally of `ks` holds each kind's number of occurrences, and holds a
/// kind exactly when it occurs.
pub proof fn lemma_tally_of_counts(ks: Seq<ResourceKind>, k: ResourceKind)
    requires
        ks.len() < u32::MAX,
    ensures
        count_in(tally_of(ks), k) == occurrences(ks, k),
        tally_of(ks).contains_key(k) <==> occurrences(ks, k) > 0,
        occurrences(ks, k) <= ks.len(),
    decreases ks.len(),
{
    if ks.len() > 0 {
        let ks2 = ks.drop_last();
        lemma_tally_of_counts(ks2, k);
        lemma_tally_of_counts(ks2, ks.last());
    }
}

/// `t` occurs `c` times in `ks`, and no kind occurs more often; those that
/// occur as often have a name that sorts no earlier.
pub open spec fn occurs_most(ks: Seq<ResourceKind>, t: ResourceKind, c: u32) -> bool {
    &&& c == occurrences(ks, t)
    &&& forall|k: ResourceKind|
        #[trigger] occurrences(ks, k) < c || (occurrences(ks, k) == c && t.code() <= k.code())
}

/// The leader over a history of mined kinds: none before the first unit;
/// afterwards a kind that occurs most often, with the number of its
/// occurrences, ties going to the kind whose name sorts first.
pub proof fn lemma_history_leader(ks: Seq<ResourceKind>)
    requires
        ks.len() < u32::MAX,
    ensures
        leader_of(tally_of(ks)) is None <==> ks.len() == 0,
        leader_of(tally_of(ks)) matches Some((t, c)) ==> occurs_most(ks, t, c),
{
    let m = tally_of(ks);
    lemma_leader_exists(m);
    if ks.len() > 0 {
        lemma_tally_of_counts(ks, ks.last());
        assert(occurrences(ks, ks.last()) > 0);
    } else {
        assert forall|k: ResourceKind| !m.contains_key(k) by {}
    }
    if let Some((t, c)) = leader_of(m) {
        assert(leads(m, t, c));
        lemma_tally_of_counts(ks, t);
        assert(m.contains_key(t));
        assert(count_in(m, t) == c);
        assert(c == occurrences(ks, t));
        assert forall|k: ResourceKind|
            #[trigger] occurrences(ks, k) < c || (occurrences(ks, k) == c && t.code() <= k.code()) by {
            lemma_tally_of_counts(ks, k);
            lemma_code_bijective(k, k);
            if m.contains_key(k) {
                assert(leads(m, t, c));
            }
        }
        assert(occurs_most(ks, t, c));
    }
}

/// The leader after any run of the driver from a new explorer (the value
/// `current_leader` returns): none until a planet has generated a resource,
/// which is when `on_generate_reply` succeeds (a reset does not change
/// that); afterwards the kind generated most often, with its number of
/// units, ties going to the kind whose name sorts first. The number of
/// units is bounded by what a count can hold.
pub proof fn lemma_run_leader(states: Seq<ExplorerView>, events: Seq<DriverEvent>, sents: Seq<Option<Sent>>)
    requires
        is_driver_run(states, events, sents),
        states[0].tally == Map::<ResourceKind, u32>::empty(),
        generated_kinds(events).len() < u32::MAX,
    ensures
        leader_of(states.last().tally) is None <==> generated_kinds(events).len() == 0,
        leader_of(states.last().tally) matches Some((t, c)) ==> occurs_most(
            generated_kinds(events),
            t,
            c,
        ),
{
    lemma_run_tally(states, events, sents);
    lemma_history_leader(generated_kinds(events));
}

/// Recording the kinds `rs` one by one into an empty ledger, as
/// `Ledger::record` does, leaves each kind's count at its number of
/// occurrences, and a kind in the tally exactly when it occurs.
pub proof fn lemma_recorded_sequence(tallies: Seq<Map<ResourceKind, u32>>, rs: Seq<ResourceKind>)
    requires
        tallies.len() == rs.len() + 1,
        tallies[0] == Map::<ResourceKind, u32>::empty(),
        forall|i: int| 0 <= i < rs.len() ==> #[trigger] tallies[i + 1] == tally_after(tallies[i], rs[i]),
        rs.len() < u32::MAX,
    ensures
        tallies.last() == tally_of(rs),
        forall|k: ResourceKind|
            #![trigger occurrences(rs, k)]
            count_in(tallies.last(), k) == occurrences(rs, k) && (tallies.last().contains_key(k)
                <==> occurrences(rs, k) > 0),
    decreases rs.len(),
{
    if rs.len() > 0 {
        let n = rs.len() - 1;
        let t2 = tallies.drop_last();
        let r2 = rs.drop_last();
        assert forall|i: int| 0 <= i < r2.len() implies #[trigger] t2[i + 1] == tally_after(t2[i], r2[i]) by {
            assert(tallies[i + 1] == tally_after(tallies[i], rs[i]));
        }
        lemma_recorded_sequence(t2, r2);
        assert(tallies[n + 1] == tally_after(tallies[n], rs[n]));
        assert(tallies.last() == tally_of(rs));
    } else {
        assert(tallies.last() == tallies[0]);
        assert(tally_of(rs) == Map::<ResourceKind, u32>::empty());
    }
    assert(tallies.last() == tally_of(rs));
    assert forall|k: ResourceKind| #![trigger occurrences(rs, k)]
        count_in(tallies.last(), k) == occurrences(rs, k) && (tallies.last().contains_key(k)
            <==> occurrences(rs, k) > 0) by {
        lemma_tally_of_counts(rs, k);
    }
}

/// Over any run of the driver, the loop leaves exactly once a
/// `KillExplorer` was handled or the orchestrator's channel closed; a
/// `StopExplorerAI` only pauses it. Until then it takes an AI step exactly
/// when the last of `StartExplorerAI`, `StopExplorerAI` and
/// `ResetExplorerAI` handled was a start.
pub proof fn lemma_run_ticks(
    states: Seq<ExplorerView>,
    events: Seq<DriverEvent>,
    sents: Seq<Option<Sent>>,
    i: int,
)
    requires
        is_driver_run(states, events, sents),
        0 <= i < states.len(),
    ensures
        (tick_for(states[i]) == Tick::Stop) <==> stopped_after(states[0].should_stop, events.take(i)),
        (tick_for(states[i]) == Tick::AiStep) <==> (!stopped_after(states[0].should_stop, events.take(i))
            && ai_on_after(states[0].ai_active, events.take(i))),
{
    lemma_run_flags(states, events, sents, i);
    lemma_tick_stops_only_when_stopped(states[i]);
}

} // verus!
