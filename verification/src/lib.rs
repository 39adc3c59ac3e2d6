//! A verified core for scalable cuckoo filter objects: configuration limits,
//! subfilter bookkeeping and growth policy, the snapshot format, bucket chunk
//! loading and command argument handling.

pub mod error;
pub mod limits;
pub mod filter;
pub mod hasher;
pub mod sums;
pub mod object;
pub mod snapshot;
pub mod alloc_stats;
pub mod reserve;
pub mod chunks;
pub mod text;
pub mod commands;
