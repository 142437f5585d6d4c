# superwork

Coordination of many Rust repositories that depend on each other: finding their
crates, checking the dependencies between them, preparing manifests for CI,
patching and unpatching local paths, ordering publication, and driving releases
in waves.

- `src/` is the library. Its functions are verified by Verus against contracts
  over texts, paths, manifest trees and release states; those that call into
  other crates are small private wrappers whose contracts are taken on trust.
  Proof functions named `law_*` state what holds across functions: that
  unpatching undoes patching, that a relative path leads where it should, that a
  wave never falls back.
- `app/` is the command line program: arguments, files, processes and network
  tools around the library.
- `tests/` runs the library on concrete values.

The manifest tree is edited through `toml_edit`, read through `toml`, versions
are compared by `semver`, and the dependency graph is held and ordered by
`petgraph`. What the proofs rely on of these crates is stated on the wrappers in
`manifest`, `value`, `version` and `graph`; what they rely on of the standard
library beyond what Verus specifies, in `publish`, `text` and `json`.
