# rheo

The logic of rheo, a typesetting and static-site engine built on Typst,
written in Verus: the library's functions carry `requires`/`ensures`
contracts and Verus proves their bodies against them. The exceptions are
the small trusted wrappers around outside crates and std, described below,
and a few private conversions that state nothing.

## Layout

- `src/` — the verified library.
  - `config/` — `rheo.toml`: decoding the toml crate's values into the
    project's configuration, and the `[packages.*]` source rules.
  - `manifest.rs`, `packages.rs`, `plugins.rs` — Typst package manifests,
    package resolution and the asset blocks packages declare.
  - `migrate/` — `rheo migrate`: which migrations are due, the
    retired-key and retired-binding sites, the `#link("file.typ")` rewrite,
    splicing edits into a text, and editing `rheo.toml` in place with
    toml_edit.
  - `parser/` — reading a Typst syntax tree: labels, metadata, variables.
  - `html.rs`, `assets.rs`, `globs.rs`, `output.rs` — what a build writes.
  - `timing.rs`, `results.rs`, `report.rs`, `reporter.rs`, `convergence.rs` —
    what a build reports.
  - `text.rs`, `paths.rs`, `ident.rs` — strings, paths and identifiers, with
    std's behaviour stated over `Seq<char>`.
- `tests/` — tests of the library, run against the real outside crates.
- `app/` — the command-line program around the library: argument handling
  and the file system.

Calls into outside crates (toml, toml_edit, typst-syntax, typst-utils,
html5ever, markup5ever_rcdom, globset, semver, dirs) stand behind small trusted wrappers whose doc comments say what their
contracts claim of the outside code. Where an answer depends on the file
system, a verified function takes that answer as an argument and says what
the library does with each.
