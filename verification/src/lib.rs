//! `minidb`: a small key-value store, partitioned into named buckets, spoken to over a line
//! protocol and made durable by a write-ahead log.

pub mod text;
pub mod names;
pub mod assoc;
pub mod store;
pub mod checksum;
pub mod protocol;
pub mod server;
pub mod wal;
pub mod actor;
pub mod retry;
pub mod runtime;
