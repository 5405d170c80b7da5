//! A radix-partitioning operator for GPU-accelerated hash joins, modelled and
//! verified on the host.
//!
//! The operator splits a keyed relation into radix-bucketed, padded, chunked
//! sub-relations: a histogram phase counts the tuples per (chunk, partition)
//! bucket and turns the counts into write offsets by an exclusive prefix sum,
//! and a write phase scatters every tuple to its bucket at the precomputed
//! offsets. The write phase exists in several variants that differ only in
//! their write-combining buffer discipline; all of them produce the same
//! partition assignment.
//!
//! `layout` holds the mathematical model of the partitioned layout, `engine`
//! the verified histogram, prefix-sum and write phases, and
//! `gpu_radix_partition` the operator and its output container. The theorems
//! of `laws` state what every successful run guarantees. Around the core,
//! `memory` models the storage backends, and `cmd`, `parse`, `types` and
//! `data_point` carry the benchmark programs' configuration logic.

pub mod cmd;
pub mod data_point;
mod engine;
pub mod error;
pub mod gpu_radix_partition;
pub mod laws;
pub mod layout;
pub mod memory;
pub mod parse;
pub mod radix;
pub mod types;
