//! squirreld: the core of an offline-first record and blob synchroniser.
//!
//! Records are written to a local database first, stamped with a hybrid
//! logical clock, and queued in an outbox in the same transaction. A sync loop
//! pushes the outbox to a remote store and pulls what other devices wrote; on
//! a conflict the later write wins. Payloads can be encrypted at rest, fields
//! can be indexed, and files can be uploaded in parts.
//!
//! This crate decides and computes: it gives statements to run and makes
//! values of the rows and answers that come back.

pub mod backend;
pub mod blob;
pub mod blob_laws;
pub mod blob_store_laws;
pub mod builder;
pub mod collection;
pub mod crypto;
pub mod db;
pub mod engine;
pub mod error;
pub mod hlc;
pub mod id;
pub mod json;
pub mod keyed;
pub mod queue_laws;
pub mod random;
pub mod reading;
pub mod reading_laws;
pub mod record_laws;
pub mod retry;
pub mod sync;
pub mod sync_laws;
pub mod text;
pub mod text_laws;
pub mod types;

pub use builder::EngineBuilder;
pub use db::config::KeySource;
pub use engine::EngineState;
pub use error::SquirrelError;
pub use hlc::Hlc;
pub use types::{
    BlobId, BlobInfo, BlobStatus, ItemEncryption, ListOpts, PendingError, PutBlobOpts, PutOpts,
    Record, RecordMeta, SortOrder, SyncEvent, SyncStats, Ulid,
};
