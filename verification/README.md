# vvpn

A diagnostics tool for the Stash VPN client on macOS. It reads Stash's core
and crash logs and its `config.yaml`, derives a list of issues (most serious
first) and renders them, with overview cards and charts, as one HTML page.

## Layout

- `src/` — the library, written in Verus.  Its functions are verified
  against their `requires`/`ensures` contracts, except a few small trusted
  wrappers around chrono, regex and std string calls, whose contracts are
  taken as given:
  - `text.rs` — character-level string operations (search, lines, trimming,
    decimal rendering, UTF-8 byte prefixes, lexicographic order);
  - `counter.rs` — insertion-ordered count tables;
  - `sorting.rs` — stable insertion sort and its correctness lemmas;
  - `date.rs`, `pattern.rs` — calendar dates (chrono) and regular
    expressions (regex), behind small trusted wrappers;
  - `logs.rs` — reading core and crash logs into a `LogReport`;
  - `yaml.rs`, `config.rs` — the YAML tree and reading the configuration
    into a `ConfigReport`;
  - `diagnosis.rs` — the issues and their order;
  - `report.rs` — the HTML page;
  - `paths.rs` — data locations and small command-line decisions.
- `app/` — the `vvpn` command: file and terminal I/O, YAML parsing with
  serde_yaml, bar widths (floating point), and the subcommands
  `cd`, `scan [--today|--week|--month]`, `open` and `clean`.
- `tests/` — tests of the library on concrete values.
