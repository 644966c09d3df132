# wdpkr_core

The engine of a semantic index over code and documents: taking sources apart,
summing them up, deciding what is embedded, keeping an index in step with its
sources, and ranking what a search finds.

- `src/` is the engine. It performs no input or output, and every function
  states in its contract what it returns; the functions named `law_…` state what
  holds of several of them together.
- `tests/` runs the engine on given values, with the real parsers, hashes and
  glob matchers behind it.
- `app/` surrounds the engine with services: HTTP clients, git, files,
  subprocesses, clocks and floating-point arithmetic.

Contracts of calls into other crates are believed, not proved. They stand next
to the calls in `src/chunk/syntax.rs` (tree-sitter), `src/globs.rs` (globset),
`src/hash.rs` (blake3), `src/eval/output.rs` (owo-colors), and, for the standard
library, in `src/text.rs` and `src/indexer/git.rs`.
