//! What a remote record store has to do, and the store in memory that does it.

use vstd::prelude::*;
use vstd::string::*;

use crate::backend::in_memory::{
    accepts, is_pull, opt_str, pushed, remotes_view, InMemoryStore, RecordKey, RemoteRecords,
};
use crate::backend::wire::{
    BackendError, OutboxPushEntry, PushResult, PushView, RemoteRecord, RemoteView,
};

verus! {

/// A remote record store. The later write wins in it, and it hands changes out
/// in the order of their clock readings.
pub trait RecordBackend {
    /// The records that the store holds.
    spec fn records(&self) -> RemoteRecords;

    /// Whether the store is in order.
    spec fn in_order(&self) -> bool;

    /// The name under which the checkpoint of this store is kept.
    spec fn name(&self) -> Seq<char>;

    /// The name under which the checkpoint of this store is kept.
    fn backend_id(&self) -> (r: &str)
        ensures
            r@ == self.name(),
    ;

    /// Pushes a change. It is accepted only where the store has no record of
    /// its key or an earlier one, and is a conflict otherwise; either way the
    /// store then holds the later of the two. Where the push fails, it may or
    /// may not have reached the store.
    fn push_one(&mut self, entry: &OutboxPushEntry) -> (r: PushResult)
        requires
            old(self).in_order(),
        ensures
            final(self).in_order(),
            final(self).name() == old(self).name(),
            match r@ {
                PushView::Accepted { pushed_seqs } => {
                    &&& accepts(old(self).records(), entry@)
                    &&& pushed_seqs == seq![entry.seq]
                    &&& final(self).records() == pushed(old(self).records(), entry@)
                },
                PushView::ConflictAt { record_id, seq } => {
                    &&& !accepts(old(self).records(), entry@)
                    &&& record_id == entry.record_id@
                    &&& seq == entry.seq
                    &&& final(self).records() == old(self).records()
                },
                PushView::TransientError(_) => {
                    ||| final(self).records() == old(self).records()
                    ||| final(self).records() == pushed(old(self).records(), entry@)
                },
            },
    ;

    /// The records after a checkpoint, or all, in ascending order of their
    /// clock readings.
    fn pull_since(&self, checkpoint: Option<&str>) -> (r: Result<Vec<RemoteRecord>, BackendError>)
        requires
            self.in_order(),
        ensures
            r matches Ok(list) ==> is_pull(
                self.records(),
                opt_str(checkpoint),
                remotes_view(list@),
            ),
    ;

    /// Makes the store ready. It may be called again and again.
    fn ensure_table(&mut self) -> (r: Result<(), BackendError>)
        requires
            old(self).in_order(),
        ensures
            final(self).in_order(),
            final(self).name() == old(self).name(),
            final(self).records() == old(self).records(),
    ;
}

/// A remote store in memory, with a name.
pub struct InMemoryBackend {
    id: String,
    store: InMemoryStore,
}

impl InMemoryBackend {
    /// A store under the name `id`.
    pub fn new(id: String, store: InMemoryStore) -> (r: InMemoryBackend)
        requires
            store.wf(),
        ensures
            r.in_order(),
            r.name() == id@,
            r.records() == store@,
    {
        InMemoryBackend { id, store }
    }

    /// An empty store under the name `id`.
    pub fn standalone(id: String) -> (r: InMemoryBackend)
        ensures
            r.in_order(),
            r.name() == id@,
            r.records() == Map::<RecordKey, RemoteView>::empty(),
    {
        InMemoryBackend { id, store: InMemoryStore::new() }
    }
}

impl RecordBackend for InMemoryBackend {
    closed spec fn records(&self) -> RemoteRecords {
        self.store@
    }

    closed spec fn in_order(&self) -> bool {
        self.store.wf()
    }

    closed spec fn name(&self) -> Seq<char> {
        self.id@
    }

    fn backend_id(&self) -> (r: &str) {
        self.id.as_str()
    }

    /// Never fails: the store is at hand.
    fn push_one(&mut self, entry: &OutboxPushEntry) -> (r: PushResult)
        ensures
            !(r@ is TransientError),
    {
        self.store.push_one(entry)
    }

    /// Never fails: the store is at hand.
    fn pull_since(&self, checkpoint: Option<&str>) -> (r: Result<Vec<RemoteRecord>, BackendError>)
        ensures
            r is Ok,
    {
        Ok(self.store.pull_since(checkpoint))
    }

    /// There is nothing to make.
    fn ensure_table(&mut self) -> (r: Result<(), BackendError>)
        ensures
            r is Ok,
    {
        Ok(())
    }
}

} // verus!
