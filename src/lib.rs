//! Ingest-and-storage core of a small time-series database: block
//! statistics, the block codec, write-ahead-log framing and recovery, the
//! hot block set and the ingest decisions around it.

pub mod bytes;
pub mod meta;
pub mod block;
pub mod helpers;
pub mod hot;
pub mod codec;
pub mod crud;
pub mod ingest;
pub mod persistence;
pub mod text;
pub mod wal;
