# cargo-upgrade

`cargo upgrade` refreshes the dependency requirements in a crate's
`Cargo.toml`: it asks crates.io for the published releases of each dependency,
picks the newest one the current requirement allows (or the newest of all with
`--latest`), and rewrites the requirement in the requirement's own style while
keeping the manifest's formatting. `--dry-run` only reports the plan,
`--interactive` lets the user review it in a terminal list first.

The planning logic is a library verified with Verus:

- `src/` is the library. `dependency`, `options` and `registry` describe what
  the manifest and crates.io give; `release` and `versioning` choose target
  releases and rewrite requirements; `plan` builds the upgrade plan; `impact`
  classifies each change; `checklist`, `review` and `screen` hold the
  interactive list (its state, every key's effect, and every text it shows);
  `flow` decides what a run does once its plan is made; `manifest` rewrites
  the TOML document.
- `semver`, `toml_edit` and `unicode-width` are called from the library through
  small trusted functions whose contracts name what those crates compute.
- What the contracts state of a rewritten manifest is the shape of every
  entry, its requirement and the text of each of its fields, and that no
  other entry changes. That comments, spacing and order elsewhere in the file
  are kept is `toml_edit`'s own behaviour, not stated by the library.
- `app/` is the command itself: argument parsing, file and network I/O, the
  progress bar and the terminal session.
- `tests/` exercises the library on concrete values.
