# tofi

The engine of a small Wayland launcher, written in Verus: every function in
`src/` carries a `requires`/`ensures` contract that Verus proves.

- `src/` is the verified library: query matching (normal, prefix, fuzzy),
  scored string tables, input editing and selection, key handling, the
  selection history and its file format, desktop entries and their cache,
  the run-command cache, config and theme values, colors and pixel buffers.
  Public `law_*` proof functions state properties that span several
  operations (for instance that deleting a character undoes adding it, or
  that a history written to text reads back unchanged).
- `app/` is the program around it: command-line parsing, file and
  environment access, TOML loading, locking, and launching.
- `tests/` exercise the library on concrete values.

Verify with Verus on `src/lib.rs`; build and test with Cargo.
