//! Parsers of what profiling tools print.

pub mod bpftrace;
pub mod heaptrack;
pub mod strace;
pub mod xctrace;
