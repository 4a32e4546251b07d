# YamAMVA

A YAML scenario dispatcher for games. A scenario is a set of scenes, each a list
of nodes; the engine walks the nodes, runs the built-in ones itself (`do`, `jump`,
`incase`, `end`, and node-level `when` conditions) and hands every node type the
game has registered to the game as a command, with its JSON and the menu elements
whose conditions hold.

## Layout

- `src/` is the library, verified with Verus:
  - `engine.rs`: the engine and its model (`step`, `run`, `exec`), with the laws
    of the walk (the end is final, blocking commands wait for their result,
    `incase` forgets the result, built-in nodes never reach the game, how scene
    references resolve);
  - `save.rs`: the save record and restoring from it, with the round-trip law;
  - `parser.rs`, `document.rs`, `world.rs`: reading scenario documents, worlds
    and scene files;
  - `sources.rs`: YAML and JSON text read through `serde_yaml` and `serde_json`;
  - `lexer.rs`, `expr.rs`, `number.rs`, `facts.rs`, `evaluator.rs`: the
    expression language of conditions and updates;
  - `state.rs`, `registry.rs`, `args.rs`, `host.rs`, `json.rs`, `yaml.rs`,
    `strmap.rs`, `scene_ref.rs`, `branch_value.rs`, `text.rs`, `error.rs`.
- `app/` answers floating-point queries with `f64` arithmetic, loads worlds from
  the file system, and offers the C interface.
- `tests/` runs the library on concrete scenarios.

## Numbers

Expressions compute with 64-bit floating-point numbers, literals such as `3.14`
included. The library computes the results that are integers of magnitude at most
2^53 exactly (where floating-point arithmetic is exact). Any other result is a
query (a literal, or an operation on two values) whose answer is handed in to the
state as a fact; evaluation reports the queries that no fact answers, and the
engine lists those of its last `exec` in `float_gaps`. `app/floats.rs` computes
the answers and runs `exec` once every answer it needs is there. Without an answer,
a condition does not hold and an update is not made, with a warning. A number
that is not finite is held by the text `inf`, `-inf` or `NaN` and written to JSON
as `null`.
