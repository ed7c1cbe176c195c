//! A fan-out-on-read timeline engine: an append-only post pool, per-author
//! feed chains with packed 64-bit heads, and a bounded k-way merge that
//! builds a viewer's most recent timeline.
pub mod data;
pub mod generate;
pub mod graph_file;
pub mod link_heap;
pub mod pool;
pub mod store;
pub mod timeline;
