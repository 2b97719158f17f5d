//! An embeddable key-value store: a storage contract shared by every backend,
//! and a memory-resident engine that implements it over a sharded map.
pub mod kv;
mod concurrent_map;
mod engine;

pub use crate::engine::Engine;
pub use crate::kv::db::DB;
pub use crate::kv::error::DBError;
pub use crate::kv::options::{ReadOptions, WriteOptions};
pub use crate::kv::stats::DBStats;
