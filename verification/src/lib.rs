//! Streaming engine core: a two-tier piece cache, the per-request file stream
//! and the life cycle of torrent engines.

pub mod table;
pub mod info_hash;
pub mod payload;
pub mod hot_tier;
pub mod hot_laws;
pub mod paths;
pub mod warm;
pub mod warm_runs;
pub mod warm_laws;
pub mod pins;
pub mod drain;
pub mod hybrid_cache;
pub mod cache_laws;
pub mod tiering;
pub mod stream;
pub mod stream_laws;
pub mod stream_effects;
pub mod trackers;
pub mod engine;
pub mod files;
pub mod grace;
pub mod engine_fs;
pub mod preload;
