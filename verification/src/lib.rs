//! Profiles of programs: recordings parsed, stacks unwound, folded and shown.

pub mod artifacts;
pub mod backends;
pub mod benchmarks;
pub mod cargo_cli;
pub mod cli;
pub mod flamegraph;
pub mod folded;
pub mod manifest;
pub mod output;
pub mod parsers;
pub mod perfdata;
pub mod platform;
pub mod precommit;
pub mod process;
pub mod ranking;
pub mod reports;
pub mod sorting;
pub mod summary;
pub mod symbols;
pub mod tables;
pub mod text;
pub mod tools;
pub mod totals;
pub mod workload;
