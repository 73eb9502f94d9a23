# Pyroclast

Profiles of programs: `perf.data` recordings are parsed, their stacks unwound, folded and shown
without a detour over `perf script`. The logic is a library that is proved with Verus; the program
around it reads files, starts tools and prints.

## Layout

- `src/` – the library. Contracts state what functions return and change. What differs between
  machines, such as the hash that spreads lines over a table, is left open.
  - `perfdata/` – recordings: headers, attributes, records, samples, mappings, the order of
    records, unwinding, folding, scripts, summaries and analyses.
  - `backends/` – how profiles are taken: each backend is a machine that says what to do next.
  - `benchmarks/` – measured folds and their comparison with another tool.
  - `cargo_cli/` – the target of a Cargo project that is profiled.
  - `flamegraph/`, `parsers/`, `summary/`, `reports.rs`, `ranking.rs` – what pictures and logs
    show, in which order, and how it is printed.
  - `text.rs`, `tables.rs`, `sorting.rs`, `totals.rs` – characters, hash tables, orders and sums
    that the rest is built on.
- `tests/` – tests of the library.
- `app/` – the program: arguments, files, processes, threads, JSON and floating-point numbers.

## What is believed without proof

Calls into `blake3`, `cargo_metadata`, `framehop`, `gimli`, `hashbrown`, `object`, `rustc-hash`
and a few functions of the standard library stand behind small wrappers. The comment above each
says what its contract claims of the call.
