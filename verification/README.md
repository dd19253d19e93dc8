# starpls_custom

Custom builtins for Starlark files: a repository-local `.starpls.json`
manifest names schemas, each with file globs and a builtins stub; the stub
describes globals, namespace objects, callables and types.

- `src/glob.rs` — glob matching (`*`, `?` within a component, `**` across
  components), with the proof that the backtracking component matcher
  decides wildcard matching on every input.
- `src/path.rs` — paths as component lists: parent, join, prefix stripping,
  and the `/`-joined form of a relative path.
- `src/manifest.rs` — the search for the nearest manifest as a sequence of
  steps, the version check, and the choice of the first schema that covers a
  file.
- `src/builtins.rs` — the builtin model and its construction from a parsed
  stub.
- `app/lib.rs` — reading files, serde parsing, and driving the search on disk
  (paths are taken apart byte-wise, so it builds for Unix targets).
