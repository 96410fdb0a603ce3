//! Backend core for a hierarchical note store (archives, tomes, entries)
//! with an incremental client/server synchronization protocol: a pull
//! exporter that returns every record changed after a cursor, and a merge
//! engine that applies a pushed batch atomically under last-write-wins
//! conflict resolution.

pub mod timestamp;
pub mod wire;
pub mod store;
pub mod merge;
pub mod pull;
pub mod laws;
