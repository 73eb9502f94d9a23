//! Summaries of folded stacks.

pub mod reading;
pub mod threads;
