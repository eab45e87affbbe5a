# factorio_oracle

Runs a real Factorio install as a test oracle: finds installs and their
versions, launches the game with a generated probe mod and reads back what
it dumped, keeps a fixture directory honest against its provenance
manifest, reads the game's Lua data at any released tag without moving a
checkout, and trims prototype dumps down to fixtures.

## Layout

- `src/` is the library, written in Verus. Its public functions carry
  contracts and are proved against them: argument vectors, path rules, the
  outcome of a run, the manifest check and version report, `git grep`
  parsing and the verdict across tags, the fixture trimmer and the
  migration renames. Processes are reached only through the `Spawner`
  trait. A runner that keeps a record of its runs (any runner wrapped in
  `Recorded`) lets each function that runs git state exactly which runs it
  made, in order, and what it made of each answer; with another runner
  those functions still state which inputs are refused before git runs.
- `app/` is the command-line program around it: argument parsing, the
  file system, real processes, `serde_json` and the few float operations.
- `tests/` runs the library on concrete values.
