# clerk

Clerk is an autonomous explorer for the planet game of `common-game`: he only
collects basic resources, keeps a running tally of everything he has mined,
and wanders to unvisited planets to broaden what he can collect.

The decision logic is a Verus-verified library under `src/`:

- `resource`: the four basic resource kinds and their codes, which follow the
  alphabetical order of the kinds' names;
- `ledger`: the per-kind tally and its leader (highest count, ties to the name
  that sorts first), with the laws that the tally only grows and that a new
  leader is either the old one or the kind just recorded;
- `routes`, `search`, `world`: the learned planet graph and a breadth-first
  search proved to return the shortest route to the nearest unvisited planet,
  first in the order of the neighbor lists, and `None` exactly when no
  unvisited planet can be reached;
- `planner`: the per-cycle choice between querying, mining, asking for
  neighbors, travelling and restarting a round;
- `explorer`: the state machine that handles orchestrator messages and planet
  replies and drives the autonomous loop.

`app/` holds the program around it: the channels to the orchestrator and the
planets, the message conversions, logging and `main`.
