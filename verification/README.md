# dsh-desktop

The launcher logic of a desktop shell around the DSH web server, as a Verus
library, plus the Tauri shell that drives it.

- `src/` — the verified library.
  - `text.rs`, `numbers.rs`: characters, whitespace, decimal digits and their meaning.
  - `path.rs`: filesystem paths as root + names, and what a filesystem probe reported.
  - `app_update.rs`: version parsing and ordering, installer choice, update status.
  - `prerelease.rs`: semver precedence between pre-release tags.
  - `config.rs`: settings validation, the web URL, the `dsh web:` ready line, the
    settings-page and index-page addresses.
  - `dsh.rs`: locating the runtime, planning launch commands, starter-plugin packages,
    pruning the web profile's bundles.
  - `json.rs`: the JSON documents read and rewritten through `serde_json`.
  - `backend.rs`: status snapshots and the decisions taken while starting dsh web
    (one step of the start loop at a time) and installing the starter plugins.
- `tests/` — tests of the library on concrete values.
- `app/` — the Tauri application: windows, tray, processes, HTTP, files and the
  environment. It hands the library plain values and probes of the filesystem.

Filesystem questions, `PATH` lookups and file reads reach the library as closures,
so each contract states what those calls answered rather than what is on disk.
