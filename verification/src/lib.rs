//! A multi-version key-value store: snapshot-isolated transactions over version chains, with
//! garbage collection, snapshots and an append-only log.

pub mod bloom;
pub mod capi;
pub mod chain;
pub mod codec;
pub mod compression;
pub mod db;
pub mod dirty;
pub mod durability;
pub mod effects;
pub mod error;
pub mod inner;
pub mod kv;
pub mod laws;
pub mod model;
pub mod options;
pub mod oracle;
pub mod persistence;
pub mod pool;
pub mod python;
pub mod queue;
pub mod readset;
pub mod recovery;
pub mod replay;
pub mod server;
pub mod skip;
pub mod text;
pub mod time;
pub mod tx;
pub mod versions;
pub mod writeset;

pub use crate::compression::CompressionMode;
pub use crate::db::{CommitStep, Database, Transaction};
pub use crate::error::{Error, PersistenceError};
pub use crate::kv::IntoBytes;
pub use crate::options::{AolMode, DatabaseOptions, FsyncMode, PersistenceOptions, SnapshotMode};
pub use crate::persistence::Persistence;
