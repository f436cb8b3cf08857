//! The explorer's state machine. Everything Clerk decides lives here: how
//! each orchestrator message changes his state and what he answers, what
//! each planet reply does to the world model and the ledger, and what the
//! autonomous loop does each cycle. Sending and receiving stay outside:
//! the functions here take what arrived and return what to do.
use std::collections::HashSet;

use common_game::utils::ID;
use vstd::prelude::*;

use crate::ledger::{count_in, leader_of, leadership_change, lemma_tally_only_grows, tally_after, Ledger};
use crate::planner::{lemma_mines_only_fresh_available, planned_action, Action, Planner};
use crate::resource::{kind_of_code, ResourceKind, KIND_COUNT};
use crate::world::WorldModel;

verus! {

/// A message from the orchestrator, as the explorer sees it.
#[derive(Debug)]
pub enum OrchestratorMessage {
    StartExplorerAI,
    ResetExplorerAI,
    KillExplorer,
    StopExplorerAI,
    /// A move to `planet_id`; `accepted` when the orchestrator handed over a
    /// link to the new planet, false when the move was refused.
    MoveToPlanet { accepted: bool, planet_id: ID },
    CurrentPlanetRequest,
    SupportedResourceRequest,
    SupportedCombinationRequest,
    GenerateResourceRequest { to_generate: ResourceKind },
    CombineResourceRequest,
    BagContentRequest,
    NeighborsResponse { neighbors: Vec<ID> },
}

/// A message from the explorer to the orchestrator that the explorer's
/// logic composes by itself.
#[derive(Debug)]
pub enum ToOrchestrator {
    StartExplorerAIResult { explorer_id: ID },
    KillExplorerResult { explorer_id: ID },
    ResetExplorerAIResult { explorer_id: ID },
    StopExplorerAIResult { explorer_id: ID },
    MovedToPlanetResult { explorer_id: ID, planet_id: ID },
    CurrentPlanetResult { explorer_id: ID, planet_id: ID },
    CombineResourceResponse { explorer_id: ID, generated: Result<(), String> },
    NeighborsRequest { explorer_id: ID, current_planet_id: ID },
    TravelToPlanetRequest { explorer_id: ID, current_planet_id: ID, dst_planet_id: ID },
}

/// What the driver of the explorer is to do after a step.
#[derive(Debug)]
pub enum Command {
    /// Send this message to the orchestrator.
    Send(ToOrchestrator),
    /// Ask the current planet for its basic resources, hand the reply to
    /// `on_supported_resources`, and send the result to the orchestrator.
    QuerySupportedResources,
    /// Ask the current planet for its combinations and relay them to the
    /// orchestrator.
    QuerySupportedCombinations,
    /// Ask the current planet to generate this kind, hand the reply to
    /// `on_generate_reply`, and send the outcome to the orchestrator.
    Generate(ResourceKind),
    /// Ask the current planet for its basic resources and hand the reply to
    /// `on_supported_resources`; nothing goes to the orchestrator.
    QueryResourcesHere,
    /// Ask the current planet to generate this kind and hand the reply to
    /// `on_generate_reply`; nothing goes to the orchestrator.
    Mine(ResourceKind),
    /// The known map is exhausted: this visit's mining round restarted.
    RoundRestarted,
    /// Nothing to do.
    Nothing,
    /// The message is not one the explorer handles.
    Unhandled,
}

/// The outcome of asking the current planet for its basic resources.
#[derive(Debug)]
pub enum ResourcesReply {
    /// There is no link to a planet yet.
    NoPlanetLink,
    /// The request could not be sent: the planet's channel is gone.
    PlanetGone,
    /// The planet's basic resources, as kind codes.
    Supported(HashSet<u8>),
    /// The planet is stopped.
    Stopped,
    /// No reply, or a reply of another kind.
    NoAnswer,
}

/// The outcome of asking the current planet to generate a resource.
#[derive(Debug)]
pub enum GenerateReply {
    /// There is no link to a planet yet.
    NoPlanetLink,
    /// The request could not be sent.
    PlanetUnreachable,
    /// The planet generated a resource of this kind.
    Generated(ResourceKind),
    /// The planet could not generate the resource.
    NotGenerated,
    /// The planet is stopped.
    Stopped,
    /// No reply, or a reply of another kind.
    NoAnswer,
}

/// What one mined unit did to the ledger.
#[derive(Debug, Clone, Copy)]
pub struct Mined {
    /// The kind mined.
    pub kind: ResourceKind,
    /// How many of that kind have been mined in all, this one included.
    pub total: u32,
    /// The new leader, where this unit changed which kind leads.
    pub new_leader: Option<(ResourceKind, u32)>,
}

/// What the driver's loop does on one tick, once the messages that arrived
/// have been handled.
#[derive(Debug, Clone, Copy, PartialEq, Eq, Structural)]
pub enum Tick {
    /// Leave the loop: the explorer has stopped.
    Stop,
    /// Take one AI step.
    AiStep,
    /// Do nothing this tick.
    Wait,
}

/// The tick for an explorer in state `v`: stop once asked to, otherwise an
/// AI step while the AI is active.
pub open spec fn tick_for(v: ExplorerView) -> Tick {
    if v.should_stop {
        Tick::Stop
    } else if v.ai_active {
        Tick::AiStep
    } else {
        Tick::Wait
    }
}

/// The explorer's state, as its contracts speak of it.
pub struct ExplorerView {
    pub id: ID,
    pub current_planet_id: ID,
    pub ai_active: bool,
    pub should_stop: bool,
    pub neighbors: Map<ID, Vec<ID>>,
    pub resources: Map<ID, HashSet<u8>>,
    pub visited: Set<ID>,
    pub tally: Map<ResourceKind, u32>,
    pub mined_here: Set<u8>,
}


/// How the explorer handles one orchestrator message: `pre` is its state
/// before, `post` after, and `cmd` what it asks its driver to do.
pub open spec fn handles(
    pre: ExplorerView,
    msg: OrchestratorMessage,
    post: ExplorerView,
    cmd: Command,
) -> bool {
    match msg {
        OrchestratorMessage::KillExplorer => {
            &&& post == ExplorerView { should_stop: true, ..pre }
            &&& cmd == Command::Send(ToOrchestrator::KillExplorerResult { explorer_id: pre.id })
        },
        OrchestratorMessage::StartExplorerAI => {
            &&& post == ExplorerView { ai_active: true, ..pre }
            &&& cmd == Command::Send(ToOrchestrator::StartExplorerAIResult { explorer_id: pre.id })
        },
        OrchestratorMessage::StopExplorerAI => {
            &&& post == ExplorerView { ai_active: false, ..pre }
            &&& cmd == Command::Send(ToOrchestrator::StopExplorerAIResult { explorer_id: pre.id })
        },
        OrchestratorMessage::ResetExplorerAI => {
            &&& post == ExplorerView {
                ai_active: false,
                visited: set![pre.current_planet_id],
                mined_here: Set::empty(),
                ..pre
            }
            &&& cmd == Command::Send(ToOrchestrator::ResetExplorerAIResult { explorer_id: pre.id })
        },
        OrchestratorMessage::MoveToPlanet { accepted, planet_id } => {
            &&& post == if accepted {
                ExplorerView {
                    current_planet_id: planet_id,
                    visited: pre.visited.insert(planet_id),
                    mined_here: Set::empty(),
                    ..pre
                }
            } else {
                pre
            }
            &&& cmd == Command::Send(
                ToOrchestrator::MovedToPlanetResult {
                    explorer_id: pre.id,
                    planet_id: post.current_planet_id,
                },
            )
        },
        OrchestratorMessage::CurrentPlanetRequest => {
            &&& post == pre
            &&& cmd == Command::Send(
                ToOrchestrator::CurrentPlanetResult {
                    explorer_id: pre.id,
                    planet_id: pre.current_planet_id,
                },
            )
        },
        OrchestratorMessage::SupportedResourceRequest => {
            &&& post == pre
            &&& cmd == Command::QuerySupportedResources
        },
        OrchestratorMessage::SupportedCombinationRequest => {
            &&& post == pre
            &&& cmd == Command::QuerySupportedCombinations
        },
        OrchestratorMessage::GenerateResourceRequest { to_generate } => {
            &&& post == pre
            &&& cmd == Command::Generate(to_generate)
        },
        OrchestratorMessage::CombineResourceRequest => {
            &&& post == pre
            &&& (cmd matches Command::Send(
                ToOrchestrator::CombineResourceResponse { explorer_id, generated: Err(e) },
            ) && explorer_id == pre.id && e@ == "Clerk cannot combine resources"@)
        },
        OrchestratorMessage::BagContentRequest => {
            &&& post == pre
            &&& cmd == Command::Unhandled
        },
        OrchestratorMessage::NeighborsResponse { neighbors } => {
            &&& post == ExplorerView {
                neighbors: pre.neighbors.insert(pre.current_planet_id, neighbors),
                ..pre
            }
            &&& cmd == Command::Nothing
        },
    }
}

/// How the explorer carries out a planned action: `pre` is its state
/// before, `post` after, and `cmd` what it asks its driver to do.
pub open spec fn executes(
    pre: ExplorerView,
    action: Action,
    post: ExplorerView,
    cmd: Command,
) -> bool {
    match action {
        Action::QueryResourcesHere => post == pre && cmd == Command::QueryResourcesHere,
        Action::Mine(k) => post == pre && cmd == Command::Mine(k),
        Action::ExploreTowards(dst) => {
            &&& post == pre
            &&& cmd == Command::Send(
                ToOrchestrator::TravelToPlanetRequest {
                    explorer_id: pre.id,
                    current_planet_id: pre.current_planet_id,
                    dst_planet_id: dst,
                },
            )
        },
        Action::RequestNeighbors => {
            &&& post == pre
            &&& cmd == Command::Send(
                ToOrchestrator::NeighborsRequest {
                    explorer_id: pre.id,
                    current_planet_id: pre.current_planet_id,
                },
            )
        },
        Action::RestartMiningRound => {
            &&& post == ExplorerView { mined_here: Set::empty(), ..pre }
            &&& cmd == Command::RoundRestarted
        },
    }
}

/// The resources a resources reply reports: the planet's set where it
/// answered with one, otherwise none.
pub open spec fn reported_resources(reply: ResourcesReply) -> Set<u8> {
    match reply {
        ResourcesReply::Supported(s) => s@,
        _ => Set::empty(),
    }
}

/// How the explorer takes the current planet's answer to a resources
/// request: `r` is what it returns. Where there is no planet link or the
/// request could not be sent, nothing is recorded and nothing returned;
/// otherwise the reported set (empty unless the planet answered with one)
/// is recorded as the current planet's resources and returned.
pub open spec fn takes_resources(
    pre: ExplorerView,
    reply: ResourcesReply,
    post: ExplorerView,
    r: Set<u8>,
) -> bool {
    match reply {
        ResourcesReply::NoPlanetLink | ResourcesReply::PlanetGone => {
            &&& post == pre
            &&& r == Set::<u8>::empty()
        },
        _ => {
            &&& r == reported_resources(reply)
            &&& post.resources.contains_key(pre.current_planet_id)
            &&& post.resources[pre.current_planet_id]@ == r
            &&& post == ExplorerView {
                resources: pre.resources.insert(
                    pre.current_planet_id,
                    post.resources[pre.current_planet_id],
                ),
                ..pre
            }
        },
    }
}

/// How the explorer takes the current planet's answer to a generate
/// request: a generated resource is counted in the ledger and marked as
/// mined on this visit, and `r` reports it; every other answer changes
/// nothing and `r` is the error with its message.
pub open spec fn takes_generated(
    pre: ExplorerView,
    reply: GenerateReply,
    post: ExplorerView,
    r: Result<Mined, String>,
) -> bool {
    match reply {
        GenerateReply::Generated(k) => {
            &&& post == ExplorerView {
                tally: tally_after(pre.tally, k),
                mined_here: pre.mined_here.insert(k.code()),
                ..pre
            }
            &&& (r matches Ok(m) && m.kind == k && m.total == count_in(post.tally, k)
                && m.new_leader == leadership_change(leader_of(pre.tally), leader_of(post.tally)))
        },
        _ => {
            &&& post == pre
            &&& (r matches Err(e) && e@ == generate_error(reply))
        },
    }
}

/// Every code in a set of resources is a kind's code.
pub open spec fn codes_valid(s: Set<u8>) -> bool {
    forall|c: u8| #[trigger] s.contains(c) ==> c < KIND_COUNT
}

/// The error text for a generate reply that brought no resource.
pub open spec fn generate_error(reply: GenerateReply) -> Seq<char> {
    match reply {
        GenerateReply::NoPlanetLink => "not currently linked to a planet"@,
        GenerateReply::PlanetUnreachable => "planet unreachable"@,
        GenerateReply::NotGenerated => "planet could not generate that resource"@,
        GenerateReply::Stopped => "planet is stopped"@,
        _ => "no response from planet"@,
    }
}

/// Clerk: an explorer that only collects basic resources, keeps a running
/// tally of them, and wanders to unvisited planets to broaden what he can
/// collect.
pub struct Explorer {
    id: ID,
    current_planet_id: ID,
    ai_active: bool,
    should_stop: bool,
    world: WorldModel,
    ledger: Ledger,
    /// Which kinds (by code) Clerk has mined on this visit to the current
    /// planet: reset whenever he arrives somewhere new, or when the known
    /// map is exhausted and he goes round again where he stands.
    mined_here_this_visit: HashSet<u8>,
}

impl View for Explorer {
    type V = ExplorerView;

    closed spec fn view(&self) -> ExplorerView {
        ExplorerView {
            id: self.id,
            current_planet_id: self.current_planet_id,
            ai_active: self.ai_active,
            should_stop: self.should_stop,
            neighbors: self.world.neighbors@,
            resources: self.world.resources@,
            visited: self.world.visited@,
            tally: self.ledger@,
            mined_here: self.mined_here_this_visit@,
        }
    }
}

/// Another copy of a set of kind codes, made by std's `HashSet::clone`.
/// Trusted: the contract claims that the clone holds exactly the elements
/// of the original, as std documents for `Clone` on `HashSet`.
#[verifier::external_body]
fn copy_codes(s: &HashSet<u8>) -> (r: HashSet<u8>)
    ensures
        r@ == s@,
{
    s.clone()
}

/// The explorer's state invariant: the current planet counts as visited,
/// every recorded resource set holds kind codes only, and every kind mined
/// on this visit is a kind that the ledger holds.
pub open spec fn explorer_inv(v: ExplorerView) -> bool {
    &&& v.visited.contains(v.current_planet_id)
    &&& forall|p: ID| #[trigger] v.resources.contains_key(p) ==> codes_valid(v.resources[p]@)
    &&& forall|c: u8| #[trigger]
        v.mined_here.contains(c) ==> c < KIND_COUNT && v.tally.contains_key(
            kind_of_code(c).unwrap(),
        )
}

impl Explorer {
    /// The explorer's well-formedness: the invariant on its view, and a
    /// well-formed ledger.
    pub closed spec fn wf(&self) -> bool {
        explorer_inv(self@) && self.ledger.wf()
    }

    /// A new explorer with the given id, standing on `starting_planet_id`,
    /// which counts as visited; its AI is off and nothing is known or mined.
    pub fn new(id: ID, starting_planet_id: ID) -> (r: Explorer)
        ensures
            r.wf(),
            r@.id == id,
            r@.current_planet_id == starting_planet_id,
            !r@.ai_active,
            !r@.should_stop,
            r@.neighbors == Map::<ID, Vec<ID>>::empty(),
            r@.resources == Map::<ID, HashSet<u8>>::empty(),
            r@.visited == set![starting_planet_id],
            r@.tally == Map::<ResourceKind, u32>::empty(),
            r@.mined_here == Set::<u8>::empty(),
    {
        let mut world = WorldModel::default();
        world.visited.insert(starting_planet_id);
        let r = Explorer {
            id,
            current_planet_id: starting_planet_id,
            ai_active: false,
            should_stop: false,
            world,
            ledger: Ledger::default(),
            mined_here_this_visit: HashSet::new(),
        };
        assert(r@.visited =~= set![starting_planet_id]);
        r
    }

    pub fn id(&self) -> (r: ID)
        ensures
            r == self@.id,
    {
        self.id
    }

    pub fn current_planet_id(&self) -> (r: ID)
        ensures
            r == self@.current_planet_id,
    {
        self.current_planet_id
    }

    pub fn ai_active(&self) -> (r: bool)
        ensures
            r == self@.ai_active,
    {
        self.ai_active
    }

    pub fn should_stop(&self) -> (r: bool)
        ensures
            r == self@.should_stop,
    {
        self.should_stop
    }

    pub fn world(&self) -> (r: &WorldModel)
        ensures
            r.neighbors@ == self@.neighbors,
            r.resources@ == self@.resources,
            r.visited@ == self@.visited,
    {
        &self.world
    }

    pub fn ledger(&self) -> (r: &Ledger)
        requires
            self.wf(),
        ensures
            r@ == self@.tally,
            r.wf(),
    {
        &self.ledger
    }

    pub fn mined_here_this_visit(&self) -> (r: &HashSet<u8>)
        ensures
            r@ == self@.mined_here,
    {
        &self.mined_here_this_visit
    }

    /// The current leader (kind, count), if anything has been mined yet.
    pub fn current_leader(&self) -> (r: Option<(ResourceKind, u32)>)
        ensures
            r == leader_of(self@.tally),
    {
        self.ledger.leader()
    }

    /// The message that announces the explorer's planet when it starts running.
    pub fn startup_message(&self) -> (m: ToOrchestrator)
        ensures
            m == (ToOrchestrator::CurrentPlanetResult {
                explorer_id: self@.id,
                planet_id: self@.current_planet_id,
            }),
    {
        ToOrchestrator::CurrentPlanetResult {
            explorer_id: self.id,
            planet_id: self.current_planet_id,
        }
    }


    /// Handles one message from the orchestrator.
    pub fn handle_orchestrator_message(&mut self, msg: OrchestratorMessage) -> (cmd: Command)
        requires
            old(self).wf(),
        ensures
            final(self).wf(),
            handles(old(self)@, msg, final(self)@, cmd),
    {
        let ghost pre = self@;
        let cmd = match msg {
            OrchestratorMessage::KillExplorer => {
                self.should_stop = true;
                Command::Send(ToOrchestrator::KillExplorerResult { explorer_id: self.id })
            },
            OrchestratorMessage::StartExplorerAI => {
                self.ai_active = true;
                Command::Send(ToOrchestrator::StartExplorerAIResult { explorer_id: self.id })
            },
            OrchestratorMessage::StopExplorerAI => {
                self.ai_active = false;
                Command::Send(ToOrchestrator::StopExplorerAIResult { explorer_id: self.id })
            },
            OrchestratorMessage::ResetExplorerAI => {
                self.ai_active = false;
                let mut visited: HashSet<ID> = HashSet::new();
                visited.insert(self.current_planet_id);
                self.world.visited = visited;
                self.mined_here_this_visit.clear();
                // The ledger is deliberately kept: the collection tally is
                // Clerk's persistent life's work, not AI-loop state.
                proof {
                    assert(self@.visited =~= set![pre.current_planet_id]);
                    assert(self@ == ExplorerView {
                        ai_active: false,
                        visited: set![pre.current_planet_id],
                        mined_here: Set::empty(),
                        ..pre
                    });
                }
                Command::Send(ToOrchestrator::ResetExplorerAIResult { explorer_id: self.id })
            },
            OrchestratorMessage::MoveToPlanet { accepted, planet_id } => {
                if accepted {
                    self.current_planet_id = planet_id;
                    self.world.visited.insert(planet_id);
                    self.mined_here_this_visit.clear();
                }
                Command::Send(
                    ToOrchestrator::MovedToPlanetResult {
                        explorer_id: self.id,
                        planet_id: self.current_planet_id,
                    },
                )
            },
            OrchestratorMessage::CurrentPlanetRequest => {
                Command::Send(
                    ToOrchestrator::CurrentPlanetResult {
                        explorer_id: self.id,
                        planet_id: self.current_planet_id,
                    },
                )
            },
            OrchestratorMessage::SupportedResourceRequest => Command::QuerySupportedResources,
            OrchestratorMessage::SupportedCombinationRequest => Command::QuerySupportedCombinations,
            OrchestratorMessage::GenerateResourceRequest { to_generate } => Command::Generate(
                to_generate,
            ),
            OrchestratorMessage::CombineResourceRequest => {
                // Clerk cannot combine: refuse without contacting the planet.
                Command::Send(
                    ToOrchestrator::CombineResourceResponse {
                        explorer_id: self.id,
                        generated: Err("Clerk cannot combine resources".to_string()),
                    },
                )
            },
            OrchestratorMessage::BagContentRequest => Command::Unhandled,
            OrchestratorMessage::NeighborsResponse { neighbors } => {
                self.world.record_neighbors(self.current_planet_id, neighbors);
                Command::Nothing
            },
        };
        proof {
            assert forall|c: u8| #[trigger] self@.mined_here.contains(c) implies c < KIND_COUNT
                && self@.tally.contains_key(kind_of_code(c).unwrap()) by {
                assert(pre.mined_here.contains(c));
            }
        }
        cmd
    }

    /// Takes the current planet's answer to a resources request. With no
    /// planet link, or when the request could not be sent, nothing is
    /// recorded (the planet will be asked again) and the answer is empty.
    /// Otherwise what the planet reports (nothing, where it did not answer
    /// with a set) is recorded as the planet's resources and returned.
    pub fn on_supported_resources(&mut self, reply: ResourcesReply) -> (r: HashSet<u8>)
        requires
            old(self).wf(),
            reply matches ResourcesReply::Supported(s) ==> codes_valid(s@),
        ensures
            final(self).wf(),
            takes_resources(old(self)@, reply, final(self)@, r@),
    {
        let result: HashSet<u8> = match reply {
            ResourcesReply::NoPlanetLink | ResourcesReply::PlanetGone => {
                return HashSet::new();
            },
            ResourcesReply::Supported(resource_list) => resource_list,
            ResourcesReply::Stopped | ResourcesReply::NoAnswer => HashSet::new(),
        };
        let stored = copy_codes(&result);
        self.world.record_resources(self.current_planet_id, stored);
        proof {
            assert forall|p: ID| #[trigger] self@.resources.contains_key(p) implies codes_valid(
                self@.resources[p]@,
            ) by {
                if p != old(self)@.current_planet_id {
                    assert(old(self)@.resources.contains_key(p));
                }
            }
            assert forall|c: u8| #[trigger] self@.mined_here.contains(c) implies c < KIND_COUNT
                && self@.tally.contains_key(kind_of_code(c).unwrap()) by {
                assert(old(self)@.mined_here.contains(c));
            }
        }
        result
    }

    /// Takes the current planet's answer to a generate request. A generated
    /// resource is counted in the ledger and marked as mined on this visit;
    /// every other answer is an error with its message, and changes nothing.
    pub fn on_generate_reply(&mut self, reply: GenerateReply) -> (r: Result<Mined, String>)
        requires
            old(self).wf(),
            reply matches GenerateReply::Generated(k) ==> count_in(old(self)@.tally, k) < u32::MAX,
        ensures
            final(self).wf(),
            takes_generated(old(self)@, reply, final(self)@, r),
    {
        match reply {
            GenerateReply::Generated(kind) => {
                let code = kind.code();
                self.mined_here_this_visit.insert(code);
                let new_leader = self.ledger.record(kind);
                let total: u32 = match self.ledger.counts().get(&code) {
                    Some(n) => *n,
                    None => 0,
                };
                proof {
                    assert forall|p: ID| #[trigger] self@.resources.contains_key(p) implies codes_valid(
                        self@.resources[p]@,
                    ) by {
                        assert(old(self)@.resources.contains_key(p));
                    }
                    assert(self.ledger@.contains_key(kind));
                    assert forall|c: u8| #[trigger] self@.mined_here.contains(c) implies c
                        < KIND_COUNT && self@.tally.contains_key(kind_of_code(c).unwrap()) by {
                        if c != code {
                            assert(old(self)@.mined_here.contains(c));
                            assert(old(self)@.tally.contains_key(kind_of_code(c).unwrap()));
                        }
                    }
                }
                Ok(Mined { kind, total, new_leader })
            },
            GenerateReply::NotGenerated => {
                Err("planet could not generate that resource".to_string())
            },
            GenerateReply::Stopped => Err("planet is stopped".to_string()),
            GenerateReply::NoPlanetLink => Err("not currently linked to a planet".to_string()),
            GenerateReply::PlanetUnreachable => Err("planet unreachable".to_string()),
            GenerateReply::NoAnswer => Err("no response from planet".to_string()),
        }
    }

    /// One cycle of the autonomous AI: plan the next action and carry it out.
    pub fn ai_step(&mut self) -> (cmd: Command)
        requires
            old(self).wf(),
        ensures
            final(self).wf(),
            exists|a: Action|
                #[trigger] planned_action(
                    old(self)@.neighbors,
                    old(self)@.resources,
                    old(self)@.visited,
                    old(self)@.mined_here,
                    old(self)@.current_planet_id,
                    a,
                ) && executes(old(self)@, a, final(self)@, cmd),
    {
        let ghost pre = self@;
        let action = Planner::next_action(
            self.current_planet_id,
            &self.world,
            &self.mined_here_this_visit,
        );
        let cmd = self.execute(action);
        proof {
            assert(planned_action(
                pre.neighbors,
                pre.resources,
                pre.visited,
                pre.mined_here,
                pre.current_planet_id,
                action,
            ));
        }
        cmd
    }

    /// Carries out a planned action.
    pub fn execute(&mut self, action: Action) -> (cmd: Command)
        requires
            old(self).wf(),
        ensures
            final(self).wf(),
            executes(old(self)@, action, final(self)@, cmd),
    {
        let ghost pre = self@;
        let cmd = match action {
            Action::QueryResourcesHere => Command::QueryResourcesHere,
            Action::Mine(resource) => Command::Mine(resource),
            Action::ExploreTowards(dst) => Command::Send(
                ToOrchestrator::TravelToPlanetRequest {
                    explorer_id: self.id,
                    current_planet_id: self.current_planet_id,
                    dst_planet_id: dst,
                },
            ),
            Action::RequestNeighbors => Command::Send(
                ToOrchestrator::NeighborsRequest {
                    explorer_id: self.id,
                    current_planet_id: self.current_planet_id,
                },
            ),
            Action::RestartMiningRound => {
                self.mined_here_this_visit.clear();
                Command::RoundRestarted
            },
        };
        proof {
            assert forall|p: ID| #[trigger] self@.resources.contains_key(p) implies codes_valid(
                self@.resources[p]@,
            ) by {
                assert(pre.resources.contains_key(p));
            }
        }
        cmd
    }

    /// A well-formed explorer stands on a planet it counts as visited, and
    /// everything it mined on this visit is in its ledger.
    pub proof fn lemma_wf_inv(&self)
        requires
            self.wf(),
        ensures
            explorer_inv(self@),
            self@.visited.contains(self@.current_planet_id),
    {
    }

    /// What the driver's loop does on this tick.
    pub fn next_tick(&self) -> (t: Tick)
        ensures
            t == tick_for(self@),
    {
        if self.should_stop {
            Tick::Stop
        } else if self.ai_active {
            Tick::AiStep
        } else {
            Tick::Wait
        }
    }

    /// The orchestrator's channel is closed: the explorer stops.
    pub fn on_orchestrator_gone(&mut self)
        requires
            old(self).wf(),
        ensures
            final(self).wf(),
            final(self)@ == (ExplorerView { should_stop: true, ..old(self)@ }),
    {
        self.should_stop = true;
    }
}

/// No orchestrator message changes the ledger: the tally only changes when
/// a planet hands over a generated resource.
pub proof fn lemma_messages_keep_ledger(
    pre: ExplorerView,
    msg: OrchestratorMessage,
    post: ExplorerView,
    cmd: Command,
)
    requires
        handles(pre, msg, post, cmd),
    ensures
        post.tally == pre.tally,
{
}

/// An AI step never changes the ledger nor what is known of the map; at
/// most it forgets this visit's mining progress.
pub proof fn lemma_ai_step_keeps_knowledge(
    pre: ExplorerView,
    action: Action,
    post: ExplorerView,
    cmd: Command,
)
    requires
        executes(pre, action, post, cmd),
    ensures
        post.tally == pre.tally,
        post.neighbors == pre.neighbors,
        post.resources == pre.resources,
        post.visited == pre.visited,
        post.current_planet_id == pre.current_planet_id,
{
}

/// A request to combine is always refused with the same message, and
/// changes nothing.
pub proof fn lemma_combine_refused(pre: ExplorerView, post: ExplorerView, cmd: Command)
    requires
        handles(pre, OrchestratorMessage::CombineResourceRequest, post, cmd),
    ensures
        post == pre,
        cmd matches Command::Send(ToOrchestrator::CombineResourceResponse { generated: Err(e), .. })
            && e@ == "Clerk cannot combine resources"@,
{
}

/// Once a kind has been mined on this visit, the planner does not ask to
/// mine it again until the visit ends.
pub proof fn lemma_no_remine_during_visit(v: ExplorerView, k: ResourceKind)
    requires
        v.mined_here.contains(k.code()),
    ensures
        !planned_action(
            v.neighbors,
            v.resources,
            v.visited,
            v.mined_here,
            v.current_planet_id,
            Action::Mine(k),
        ),
{
    if planned_action(
        v.neighbors,
        v.resources,
        v.visited,
        v.mined_here,
        v.current_planet_id,
        Action::Mine(k),
    ) {
        lemma_mines_only_fresh_available(
            v.neighbors,
            v.resources,
            v.visited,
            v.mined_here,
            v.current_planet_id,
            k,
        );
    }
}

/// An accepted move puts the explorer on the new planet, marks it visited
/// and starts a fresh visit: nothing counts as mined here yet, whether or
/// not the planet was visited before. The ledger is kept, and the reply
/// names the new planet. A refused move changes nothing and the reply
/// names the planet the explorer is still on.
pub proof fn lemma_move_starts_fresh_visit(
    pre: ExplorerView,
    accepted: bool,
    p: ID,
    post: ExplorerView,
    cmd: Command,
)
    requires
        handles(pre, OrchestratorMessage::MoveToPlanet { accepted, planet_id: p }, post, cmd),
    ensures
        accepted ==> {
            &&& post.current_planet_id == p
            &&& post.visited.contains(p)
            &&& post.visited == pre.visited.insert(p)
            &&& post.mined_here == Set::<u8>::empty()
            &&& post.tally == pre.tally
            &&& post.neighbors == pre.neighbors
            &&& post.resources == pre.resources
            &&& post.ai_active == pre.ai_active
            &&& post.should_stop == pre.should_stop
        },
        !accepted ==> post == pre,
        cmd == Command::Send(
            ToOrchestrator::MovedToPlanetResult {
                explorer_id: pre.id,
                planet_id: if accepted {
                    p
                } else {
                    pre.current_planet_id
                },
            },
        ),
{
}

/// A request to generate a kind asks the current planet for exactly that
/// kind, and changes nothing before the planet answers.
pub proof fn lemma_generate_request_asks_for_kind(
    pre: ExplorerView,
    k: ResourceKind,
    post: ExplorerView,
    cmd: Command,
)
    requires
        handles(pre, OrchestratorMessage::GenerateResourceRequest { to_generate: k }, post, cmd),
    ensures
        cmd == Command::Generate(k),
        post == pre,
{
}

/// A generated unit of a kind is counted once more in the ledger and marked
/// as mined on this visit, whatever the ledger held before; nothing else
/// changes, and the result reports that kind and its new total (below the
/// largest count a `u32` holds). Afterwards
/// the planner does not ask to mine that kind again on this visit.
pub proof fn lemma_generated_unit_is_marked(
    pre: ExplorerView,
    k: ResourceKind,
    post: ExplorerView,
    r: Result<Mined, String>,
)
    requires
        takes_generated(pre, GenerateReply::Generated(k), post, r),
        count_in(pre.tally, k) < u32::MAX,
    ensures
        post.mined_here == pre.mined_here.insert(k.code()),
        post.mined_here.contains(k.code()),
        count_in(post.tally, k) == count_in(pre.tally, k) + 1,
        forall|j: ResourceKind| j != k ==> #[trigger] count_in(post.tally, j) == count_in(pre.tally, j),
        post.current_planet_id == pre.current_planet_id,
        post.visited == pre.visited,
        post.neighbors == pre.neighbors,
        post.resources == pre.resources,
        post.ai_active == pre.ai_active,
        post.should_stop == pre.should_stop,
        r matches Ok(m) && m.kind == k && m.total == count_in(pre.tally, k) + 1,
        !planned_action(
            post.neighbors,
            post.resources,
            post.visited,
            post.mined_here,
            post.current_planet_id,
            Action::Mine(k),
        ),
{
    assert forall|j: ResourceKind| j != k implies #[trigger] count_in(post.tally, j) == count_in(pre.tally, j) by {
        lemma_tally_only_grows(pre.tally, k, j);
    }
    lemma_tally_only_grows(pre.tally, k, k);
    lemma_no_remine_during_visit(post, k);
}

/// The loop leaves exactly when the explorer has been told to stop (killed,
/// or its orchestrator gone); otherwise it takes an AI step exactly when
/// the AI is active, and waits when it is not.
pub proof fn lemma_tick_stops_only_when_stopped(v: ExplorerView)
    ensures
        (tick_for(v) == Tick::Stop) <==> v.should_stop,
        (tick_for(v) == Tick::AiStep) <==> (!v.should_stop && v.ai_active),
        (tick_for(v) == Tick::Wait) <==> (!v.should_stop && !v.ai_active),
{
}

/// Stopping the AI only pauses it: a running explorer waits afterwards and
/// a later start resumes the AI steps. Only a kill makes the loop leave.
pub proof fn lemma_stop_pauses_kill_ends(
    pre: ExplorerView,
    msg: OrchestratorMessage,
    post: ExplorerView,
    cmd: Command,
)
    requires
        handles(pre, msg, post, cmd),
    ensures
        msg is StopExplorerAI ==> tick_for(post) == (if pre.should_stop {
            Tick::Stop
        } else {
            Tick::Wait
        }),
        msg is StartExplorerAI ==> tick_for(post) == (if pre.should_stop {
            Tick::Stop
        } else {
            Tick::AiStep
        }),
        msg is KillExplorer ==> tick_for(post) == Tick::Stop,
        !(msg is KillExplorer) ==> post.should_stop == pre.should_stop,
{
}

/// Carrying out a planned action asks the planet for exactly what was
/// planned: mining a kind mines that kind, querying queries the current
/// planet; neither changes the explorer's state.
pub proof fn lemma_execute_follows_plan(
    pre: ExplorerView,
    action: Action,
    post: ExplorerView,
    cmd: Command,
)
    requires
        executes(pre, action, post, cmd),
    ensures
        action matches Action::Mine(k) ==> cmd == Command::Mine(k) && post == pre,
        action is QueryResourcesHere ==> cmd == Command::QueryResourcesHere && post == pre,
        action matches Action::ExploreTowards(dst) ==> post == pre && cmd == Command::Send(
            ToOrchestrator::TravelToPlanetRequest {
                explorer_id: pre.id,
                current_planet_id: pre.current_planet_id,
                dst_planet_id: dst,
            },
        ),
{
}

/// Killing stops the explorer for good; starting and stopping switch the
/// AI on and off; a reset switches it off, forgets the route (only the
/// current planet stays visited) and this visit's progress, but keeps the
/// ledger, the map and the place. Each is acknowledged under the
/// explorer's own id, and nothing else changes.
pub proof fn lemma_lifecycle_messages(
    pre: ExplorerView,
    msg: OrchestratorMessage,
    post: ExplorerView,
    cmd: Command,
)
    requires
        handles(pre, msg, post, cmd),
    ensures
        msg is KillExplorer ==> post.should_stop && post.ai_active == pre.ai_active
            && post.mined_here == pre.mined_here && post.visited == pre.visited
            && post.current_planet_id == pre.current_planet_id && cmd == Command::Send(
            ToOrchestrator::KillExplorerResult { explorer_id: pre.id },
        ),
        msg is StartExplorerAI ==> post.ai_active && post.should_stop == pre.should_stop
            && post.mined_here == pre.mined_here && post.visited == pre.visited
            && post.current_planet_id == pre.current_planet_id && cmd == Command::Send(
            ToOrchestrator::StartExplorerAIResult { explorer_id: pre.id },
        ),
        msg is StopExplorerAI ==> !post.ai_active && post.should_stop == pre.should_stop
            && post.mined_here == pre.mined_here && post.visited == pre.visited
            && post.current_planet_id == pre.current_planet_id && cmd == Command::Send(
            ToOrchestrator::StopExplorerAIResult { explorer_id: pre.id },
        ),
        msg is ResetExplorerAI ==> {
            &&& !post.ai_active
            &&& post.should_stop == pre.should_stop
            &&& post.current_planet_id == pre.current_planet_id
            &&& post.visited == Set::<ID>::empty().insert(pre.current_planet_id)
            &&& post.mined_here == Set::<u8>::empty()
            &&& post.tally == pre.tally
            &&& post.neighbors == pre.neighbors
            &&& post.resources == pre.resources
            &&& cmd == Command::Send(ToOrchestrator::ResetExplorerAIResult { explorer_id: pre.id })
        },
        post.id == pre.id,
        post.tally == pre.tally,
{
}

/// A neighbor list from the orchestrator is recorded for the current
/// planet, replacing what was known of it; what is known of every other
/// planet stays, and nothing is sent.
pub proof fn lemma_neighbors_recorded(
    pre: ExplorerView,
    ns: Vec<ID>,
    post: ExplorerView,
    cmd: Command,
)
    requires
        handles(pre, OrchestratorMessage::NeighborsResponse { neighbors: ns }, post, cmd),
    ensures
        post.neighbors.contains_key(pre.current_planet_id),
        post.neighbors[pre.current_planet_id] == ns,
        forall|q: ID|
            q != pre.current_planet_id ==> (#[trigger] post.neighbors.contains_key(q)
                <==> pre.neighbors.contains_key(q)) && (pre.neighbors.contains_key(q)
                ==> post.neighbors[q] == pre.neighbors[q]),
        post.resources == pre.resources,
        post.visited == pre.visited,
        post.mined_here == pre.mined_here,
        post.current_planet_id == pre.current_planet_id,
        post.ai_active == pre.ai_active,
        post.should_stop == pre.should_stop,
        cmd == Command::Nothing,
{
}

/// Questions about the current planet change nothing: where the explorer
/// is, is answered at once; resources and combinations are asked of the
/// planet; the bag's content is not a question Clerk answers.
pub proof fn lemma_questions_change_nothing(
    pre: ExplorerView,
    msg: OrchestratorMessage,
    post: ExplorerView,
    cmd: Command,
)
    requires
        handles(pre, msg, post, cmd),
        msg is CurrentPlanetRequest || msg is SupportedResourceRequest
            || msg is SupportedCombinationRequest || msg is BagContentRequest,
    ensures
        post == pre,
        msg is CurrentPlanetRequest ==> cmd == Command::Send(
            ToOrchestrator::CurrentPlanetResult {
                explorer_id: pre.id,
                planet_id: pre.current_planet_id,
            },
        ),
        msg is SupportedResourceRequest ==> cmd == Command::QuerySupportedResources,
        msg is SupportedCombinationRequest ==> cmd == Command::QuerySupportedCombinations,
        msg is BagContentRequest ==> cmd == Command::Unhandled,
{
}

/// A planet's answer with its resources is recorded for the current planet
/// and returned as is; a stopped or silent planet is recorded as offering
/// nothing; with no link, or when the request could not be sent, nothing
/// is recorded. What is known of other planets, the ledger and this
/// visit's progress never change.
pub proof fn lemma_resources_recorded(
    pre: ExplorerView,
    reply: ResourcesReply,
    post: ExplorerView,
    r: Set<u8>,
)
    requires
        takes_resources(pre, reply, post, r),
    ensures
        reply matches ResourcesReply::Supported(s) ==> r == s@ && post.resources.contains_key(
            pre.current_planet_id,
        ) && post.resources[pre.current_planet_id]@ == s@,
        (reply is Stopped || reply is NoAnswer) ==> r == Set::<u8>::empty()
            && post.resources.contains_key(pre.current_planet_id)
            && post.resources[pre.current_planet_id]@ == Set::<u8>::empty(),
        (reply is NoPlanetLink || reply is PlanetGone) ==> r == Set::<u8>::empty() && post == pre,
        forall|q: ID|
            q != pre.current_planet_id ==> (#[trigger] post.resources.contains_key(q)
                <==> pre.resources.contains_key(q)) && (pre.resources.contains_key(q)
                ==> post.resources[q] == pre.resources[q]),
        post.tally == pre.tally,
        post.mined_here == pre.mined_here,
        post.visited == pre.visited,
        post.neighbors == pre.neighbors,
        post.current_planet_id == pre.current_planet_id,
{
}

/// A generate request that brought no resource changes nothing and is
/// reported as an error.
pub proof fn lemma_failed_generation_changes_nothing(
    pre: ExplorerView,
    reply: GenerateReply,
    post: ExplorerView,
    r: Result<Mined, String>,
)
    requires
        takes_generated(pre, reply, post, r),
        !(reply is Generated),
    ensures
        post == pre,
        r is Err,
{
}

/// Restarting the mining round forgets only this visit's progress; asking
/// for neighbors asks about the current planet under the explorer's id.
pub proof fn lemma_round_restart_and_neighbor_request(
    pre: ExplorerView,
    action: Action,
    post: ExplorerView,
    cmd: Command,
)
    requires
        executes(pre, action, post, cmd),
    ensures
        action is RestartMiningRound ==> post.mined_here == Set::<u8>::empty() && post.tally
            == pre.tally && post.visited == pre.visited && post.current_planet_id
            == pre.current_planet_id && post.ai_active == pre.ai_active && cmd
            == Command::RoundRestarted,
        action is RequestNeighbors ==> post == pre && cmd == Command::Send(
            ToOrchestrator::NeighborsRequest {
                explorer_id: pre.id,
                current_planet_id: pre.current_planet_id,
            },
        ),
{
}

} // verus!
