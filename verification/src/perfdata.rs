pub mod accumulate;
pub mod analysis;
pub mod attrs;
pub mod build_id;
pub mod endian;
pub mod features;
pub mod fold;
pub mod fold_counts;
pub mod frames;
pub mod header;
pub mod layouts;
pub mod mappings;
pub mod objects;
pub mod opening;
pub mod order;
pub mod raw_stack;
pub mod records;
pub mod render;
pub mod samples;
pub mod script;
pub mod stream;
pub mod summary;
pub mod unwind;
pub mod unwinding;
