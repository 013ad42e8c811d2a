//! Setting an engine up.

use vstd::prelude::*;
use vstd::string::*;

use crate::collection::{config_of, names_differ, put_config, CollectionConfig};
use crate::db::config::KeySource;
use crate::error::{ErrorView, SquirrelError};

verus! {

/// A complete setup. `R` and `B` are whatever stands for a record backend and
/// a blob backend.
pub struct EngineConfig<R, B> {
    pub db_path: String,
    pub collections: Vec<(String, CollectionConfig)>,
    pub channel_capacity: usize,
    pub record_backend: Option<R>,
    pub blob_backend: Option<B>,
    /// Where blobs are kept on this device, if not beside the database.
    pub cache_dir: Option<String>,
    /// Where the engine's key comes from. Without one nothing is encrypted.
    pub encryption_key: Option<KeySource>,
}

/// A setup in the making.
pub struct EngineBuilder<R, B> {
    pub db_path: Option<String>,
    pub collections: Vec<(String, CollectionConfig)>,
    pub channel_capacity: usize,
    pub record_backend: Option<R>,
    pub blob_backend: Option<B>,
    pub cache_dir: Option<String>,
    pub encryption_key: Option<KeySource>,
}

impl<R, B> Default for EngineBuilder<R, B> {
    fn default() -> (r: Self)
        ensures
            r.wf(),
            r.db_path is None,
            r.collections@.len() == 0,
            r.channel_capacity == 256,
            r.record_backend is None,
            r.blob_backend is None,
            r.cache_dir is None,
            r.encryption_key is None,
    {
        EngineBuilder::new()
    }
}

impl<R, B> EngineBuilder<R, B> {
    /// No collection is named twice.
    pub open spec fn wf(&self) -> bool {
        names_differ(self.collections@)
    }

    /// A setup with nothing but a channel capacity of 256.
    pub fn new() -> (r: Self)
        ensures
            r.wf(),
            r.db_path is None,
            r.collections@.len() == 0,
            r.channel_capacity == 256,
            r.record_backend is None,
            r.blob_backend is None,
            r.cache_dir is None,
            r.encryption_key is None,
    {
        EngineBuilder {
            db_path: None,
            collections: Vec::new(),
            channel_capacity: 256,
            record_backend: None,
            blob_backend: None,
            cache_dir: None,
            encryption_key: None,
        }
    }

    /// The path of the database file, which every setup needs.
    pub fn db_path(self, path: String) -> (r: Self)
        ensures
            r == (EngineBuilder { db_path: Some(path), ..self }),
    {
        let mut out = self;
        out.db_path = Some(path);
        out
    }

    /// A collection and its settings, in the place of those that it may have
    /// had.
    pub fn collection(self, name: String, config: CollectionConfig) -> (r: Self)
        requires
            self.wf(),
        ensures
            r.wf(),
            forall|n: Seq<char>| #[trigger]
                config_of(r.collections@, n) == (if n == name@ {
                    Some(config)
                } else {
                    config_of(self.collections@, n)
                }),
            r == (EngineBuilder { collections: r.collections, ..self }),
    {
        let mut out = self;
        put_config(&mut out.collections, name, config);
        out
    }

    /// How many commands may wait for the engine.
    pub fn channel_capacity(self, capacity: usize) -> (r: Self)
        ensures
            r == (EngineBuilder { channel_capacity: capacity, ..self }),
    {
        let mut out = self;
        out.channel_capacity = capacity;
        out
    }

    /// The remote store of records.
    pub fn record_backend(self, backend: R) -> (r: Self)
        ensures
            r == (EngineBuilder { record_backend: Some(backend), ..self }),
    {
        let mut out = self;
        out.record_backend = Some(backend);
        out
    }

    /// The remote store of blobs.
    pub fn blob_backend(self, backend: B) -> (r: Self)
        ensures
            r == (EngineBuilder { blob_backend: Some(backend), ..self }),
    {
        let mut out = self;
        out.blob_backend = Some(backend);
        out
    }

    /// Where blobs are kept on this device.
    pub fn cache_dir(self, dir: String) -> (r: Self)
        ensures
            r == (EngineBuilder { cache_dir: Some(dir), ..self }),
    {
        let mut out = self;
        out.cache_dir = Some(dir);
        out
    }

    /// Encrypts records with a key from `source`.
    pub fn encryption_key(self, source: KeySource) -> (r: Self)
        ensures
            r == (EngineBuilder { encryption_key: Some(source), ..self }),
    {
        let mut out = self;
        out.encryption_key = Some(source);
        out
    }

    /// The complete setup. Only the path of the database is missed.
    pub fn build(self) -> (r: Result<EngineConfig<R, B>, SquirrelError>)
        ensures
            match self.db_path {
                None => r is Err && r->Err_0@ == ErrorView::Other(
                    "db_path is required — call .db_path() on the builder"@,
                ),
                Some(path) => r is Ok && r->Ok_0 == (EngineConfig {
                    db_path: path,
                    collections: self.collections,
                    channel_capacity: self.channel_capacity,
                    record_backend: self.record_backend,
                    blob_backend: self.blob_backend,
                    cache_dir: self.cache_dir,
                    encryption_key: self.encryption_key,
                }),
            },
    {
        match self.db_path {
            None => Err(
                SquirrelError::Other(
                    "db_path is required — call .db_path() on the builder".to_owned(),
                ),
            ),
            Some(db_path) => Ok(
                EngineConfig {
                    db_path,
                    collections: self.collections,
                    channel_capacity: self.channel_capacity,
                    record_backend: self.record_backend,
                    blob_backend: self.blob_backend,
                    cache_dir: self.cache_dir,
                    encryption_key: self.encryption_key,
                },
            ),
        }
    }
}

} // verus!
