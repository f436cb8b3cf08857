//! Clerk: an explorer that only collects basic resources.
//!
//! The library holds the explorer's decision logic, free of any channel:
//!   - `resource`: the basic resource kinds and their integer codes
//!   - `ledger`:   the running per-kind tally of everything mined, and its leader
//!   - `routes`:   walks over the known planet graph and the orders on them
//!   - `world`:    the learned planet graph and the breadth-first search over it
//!   - `search`:   the invariants of that search and the lemmas that keep them
//!   - `planner`:  one action per cycle from the current planet, the world and
//!                 this visit's mining progress
//!   - `explorer`: the explorer's state machine, which turns orchestrator
//!                 messages and planet replies into state changes and replies
//!   - `history`:  laws over whole runs of the explorer
pub mod resource;
pub mod ledger;
pub mod routes;
mod search;
pub mod world;
pub mod planner;
pub mod explorer;
pub mod history;
