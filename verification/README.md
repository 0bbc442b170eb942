# semverity

A semantic version toolkit whose logic is verified with Verus: SemVer 2.0.0
parsing and precedence, version ranges as unions of intervals, the range
syntax of npm, Cargo, pip and RubyGems, version bumps (also from
conventional commit messages), version diffs, and the analysis of package
files (`package.json`, `Cargo.toml`, `pyproject.toml`, `go.mod`) for
dependency constraints and conflicts.

## Layout

- `src/` — the library. Every function carries a contract stated over
  mathematical models (`Seq`, `int`, spec functions) and is proved by Verus.
  - `text.rs` — the string operations the parsers rely on, specified
    character by character.
  - `version.rs`, `version_laws.rs` — versions, parsing, precedence,
    display, bumps; precedence is a total preorder, display and parsing
    round-trip, bumps increase.
  - `sorting.rs` — stable sort by precedence, latest and lowest version.
  - `range.rs`, `range_laws.rs` — intervals and ranges; intersection and
    negation hold exactly the expected versions, union does so on ranges
    whose intervals have uncrossed bounds, emptiness is exact, and
    simplification yields sorted, separated intervals.
  - `ecosystem.rs`, `ecosystem_laws.rs` — range syntax per ecosystem.
  - `bumper.rs`, `differ.rs` — bumps from commits, diffs and their text.
  - `analyzer.rs`, `analyzer_laws.rs` — package file analysis (the JSON of
    `package.json` is parsed by `serde_json` behind a trusted wrapper),
    conflict detection and the text report.
- `tests/` — tests of the library on concrete values.
- `app/` — the command-line program: arguments, reading files, JSON
  output, printing.
