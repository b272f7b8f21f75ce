# battle_royal

A grid battle royale in which agents driven by NEAT networks turn, step and shoot until one
is left, generation after generation. The game's rules are a library verified with Verus;
the window, the networks' floating-point arithmetic and the model files live in a thin
program around it.

## Layout

- `src/` — the verified library.
  - `rng.rs`: the seeded xorshift generator (FNV-1a seeding).
  - `text.rs`: decimal and hexadecimal text, and integer parsing.
  - `constants.rs`: sizes of vision and observations, the eight headings.
  - `state.rs`: the game, its invariant, map generation and agent placement.
  - `vision.rs`: line of sight, the view cone and the observation window.
  - `turn.rs`: one simultaneous turn of all agents.
  - `human.rs`: the human player's arrival, moves, turns and shots.
  - `spacing.rs`: living players never share a cell.
  - `capacity.rs`: every accepted number of players fits the generated map.
  - `brain.rs`, `lineage.rs`, `neat.rs`: fresh brains' weight draws, breeding and lineage
    serials, and the calls into the NEAT crate.
  - `selection.rs`, `models.rs`: rankings, tournament helpers, saved-model files (reading
    their score, lineage and genome) and which of them to load.
  - `session.rs`, `board.rs`: the automatic run, generation changes, leaderboard and board.
  - `launch.rs`: the command line.
- `tests/` — tests of the library on concrete values.
- `app/` — the program: window, input, rendering, model files and network evaluation.
