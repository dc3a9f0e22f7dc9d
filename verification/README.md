# cisat

Cognitively-Inspired Simulated Annealing Teams (CISAT): teams of simulated-annealing
agents with operational learning, adaptive cooling, satisficing and solution sharing.

## Layout

- `src/` — the verified library (Verus). It holds the parts of the model that are
  integer logic and that every real-valued computation relies on:
  - `frame`: the topology of the planar truss problem (joints carried as an opaque
    type, members with section indices) and its topology, sizing and joint moves, each
    proved to keep the design well formed and the fixed joints in place;
  - `config`: the configuration rules, checked in order, over the counts, matrix
    shapes and range checks of a configuration;
  - `context`: which learning row governs an agent's next move;
  - `schedule`: one-based team meeting steps and cooling dwell boundaries;
  - `random`: the integer draws from `rand` that the moves use.
- `app/` — the command-line program and the real-valued model built on the library:
  parameters with JSON (de)serialization, agents, teams, cohorts run in parallel with
  rayon, the Ackley benchmark, and the truss evaluation with TrussX.
- `tests/` — tests of the library.
