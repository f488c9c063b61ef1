# stylus-trace-core

Verified core of Stylus Trace Studio, a gas profiler for Arbitrum Stylus
transactions. The library compares two transaction profiles, checks the
differences against regression thresholds, renders the terminal summary and
assembles the self-contained HTML viewer. Every function in `src/` carries a
contract; Verus proves all of them except the few trusted wrappers around
outside calls (`String::push`, the `colored` styles and the `base64`
encoder), whose contracts are stated from those libraries' sources.

Layout:

- `src/diff/` — the diff engine (`engine`), threshold checks (`threshold`),
  the report types (`schema`) and the terminal summary (`output`, `style`).
- `src/commands/diff.rs` — how the diff command picks and overrides
  thresholds, where the viewer goes and when the command fails.
- `src/cli.rs`, `src/paths.rs` — argument decisions and `std::path`-style
  path handling, including the `artifacts/<category>/` placement.
- `src/output/` — output path validation, the viewer page and the Base64
  encoding and decoding specification.
- `src/percent.rs`, `src/text.rs`, `src/strmap.rs`, `src/order.rs` — exact
  percentages, text formatting, an insertion-ordered string map and the
  stable ordering by magnitude.
- `src/double.rs` — the one-decimal rendering of `n / 10000` as a
  double-precision float prints it, computed on integers.
- `app/` — the `stylus-trace` command-line program: argument parsing, file
  I/O, JSON and TOML forms of the library's types, and the browser.
- `tests/` — tests of the library.

Percentages are exact fractions (`Percentage`); thresholds are given in
hundredths of a percent.
