# linkit

A dotfiles manager: it moves files into a repository, links them back into
place, and keeps a manifest (`manifest.toml`) of which stored entry belongs
to which system path.

- `src/` is the verified library (Verus): the manifest as a key-ordered
  listing (`manifest.rs`, `keys.rs`), text and path rendering (`text.rs`,
  `paths.rs`), the configuration (`config.rs`), the refusals (`error.rs`),
  the decisions of each command (`handler.rs`) and properties that span
  several calls (`laws.rs`).
- `app/` is the command-line program: argument parsing, TOML files, the
  file-system and `git` work, and the messages it prints.
- `tests/` runs the library on concrete values.
