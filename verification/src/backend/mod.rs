//! What goes over the wire to a remote store, and the stores themselves.

pub mod dynamodb;
pub mod dynamodb_laws;
pub mod in_memory;
pub mod in_memory_blobs;
pub mod record_backend;
pub mod s3;
pub mod wire;

pub use record_backend::{InMemoryBackend, RecordBackend};
pub use wire::{BackendError, OutboxPushEntry, PushResult, RemoteRecord, UploadedPart};
