# bmtop

`bmtop` is a terminal monitor for macOS. This crate holds its logic as a library
verified with Verus: every function in `src/` carries a `requires`/`ensures`
contract that Verus proves, and the properties that span several functions are
stated and proved as public proof functions (`lemma_*`).

## Layout

- `src/text.rs` — character-sequence primitives that parsing and formatting build on.
- `src/i18n.rs` — the Chinese and English interface texts and language selection.
- `src/metrics.rs` — refresh intervals, dashboard modes, capability states.
- `src/clock.rs`, `src/format.rs`, `src/decimal.rs` — timestamps, durations, counts,
  column-aligned text, one-decimal rendering of millisecond values.
- `src/collector.rs` — what the collectors read: process records, `procargs2`,
  `lsof` and `ps` output, signal routing, counter arithmetic.
- `src/disk.rs` — `df -kP` and `mount` output into the volumes worth reporting.
- `src/history.rs` — per-process CPU and energy counters across samples.
- `src/tree.rs`, `src/table.rs` — which processes the process page shows, in what order,
  flat or as a tree.
- `src/tui.rs` — the dashboard's interaction state and its response to keys.
- `src/report.rs` — the `system_profiler` report: masking identifiers, the hardware
  page's sections and their text.
- `src/extras.rs`, `src/soc.rs`, `src/rdma.rs`, `src/thunderbolt.rs` — battery, links,
  SoC facts, RDMA and Thunderbolt descriptions.
- `tests/` — tests of the library on concrete values.
- `app/` — the `bmtop` command: arguments, subprocesses, JSON output.

Verification runs the library through Verus; the tests and the command build
against it with the crates named in `Cargo.toml`.
