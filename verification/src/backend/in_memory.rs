//! A remote record store in memory, for devices that sync within one process.

use vstd::prelude::*;
use vstd::string::*;

use crate::backend::wire::{
    remote_of, EntryView, OutboxPushEntry, PushResult, PushView, RemoteRecord, RemoteView,
};
use crate::text::{lemma_text_lt_order, text_less, text_lt, text_same};

verus! {

/// What a record is found by: its id and its collection.
pub type RecordKey = (Seq<char>, Seq<char>);

/// The key of a remote record.
pub open spec fn key_of(r: RemoteView) -> RecordKey {
    (r.record_id, r.collection)
}

/// The records of a remote store.
pub type RemoteRecords = Map<RecordKey, RemoteView>;

/// Whether a store accepts a change: it has no record of that key, or an
/// earlier one.
pub open spec fn accepts(records: RemoteRecords, e: EntryView) -> bool {
    let key = (e.record_id, e.collection);
    records.contains_key(key) ==> text_lt(records[key].hlc, e.hlc)
}

/// The records after a push.
pub open spec fn pushed(records: RemoteRecords, e: EntryView) -> RemoteRecords {
    if accepts(records, e) {
        records.insert((e.record_id, e.collection), remote_of(e))
    } else {
        records
    }
}

/// Whether a record is later than a checkpoint.
pub open spec fn is_after(r: RemoteView, checkpoint: Option<Seq<char>>) -> bool {
    match checkpoint {
        None => true,
        Some(cp) => text_lt(cp, r.hlc),
    }
}

/// Whether a list holds the records after a checkpoint: each of them once,
/// nothing else, and in the order of their clock readings.
pub open spec fn is_pull(
    records: RemoteRecords,
    checkpoint: Option<Seq<char>>,
    list: Seq<RemoteView>,
) -> bool {
    &&& forall|i: int|
        0 <= i < list.len() ==> {
            &&& records.contains_pair(key_of(#[trigger] list[i]), list[i])
            &&& is_after(list[i], checkpoint)
        }
    &&& forall|key: RecordKey| #[trigger]
        records.contains_key(key) && is_after(records[key], checkpoint) ==> exists|i: int|
            0 <= i < list.len() && #[trigger] list[i] == records[key]
    &&& keys_differ(list)
    &&& in_order(list)
}

/// Whether no two records of a list have the same key.
pub open spec fn keys_differ(list: Seq<RemoteView>) -> bool {
    forall|i: int, j: int|
        0 <= i < j < list.len() ==> key_of(#[trigger] list[i]) != key_of(#[trigger] list[j])
}

/// Whether a list is in ascending order of clock readings.
pub open spec fn in_order(list: Seq<RemoteView>) -> bool {
    forall|i: int, j: int|
        0 <= i < j < list.len() ==> !text_lt((#[trigger] list[j]).hlc, (#[trigger] list[i]).hlc)
}

/// The views of a list of remote records.
pub open spec fn remotes_view(list: Seq<RemoteRecord>) -> Seq<RemoteView> {
    Seq::new(list.len(), |i: int| list[i]@)
}

/// The records of a list, by key.
pub open spec fn by_key(list: Seq<RemoteView>) -> RemoteRecords
    decreases list.len(),
{
    if list.len() == 0 {
        Map::empty()
    } else {
        by_key(list.drop_last()).insert(key_of(list.last()), list.last())
    }
}

/// A remote store: at most one record for each id and collection.
pub struct InMemoryStore {
    records: Vec<RemoteRecord>,
}

impl View for InMemoryStore {
    type V = RemoteRecords;

    closed spec fn view(&self) -> RemoteRecords {
        by_key(remotes_view(self.records@))
    }
}

proof fn lemma_by_key(list: Seq<RemoteView>)
    requires
        keys_differ(list),
    ensures
        forall|i: int|
            0 <= i < list.len() ==> by_key(list).contains_pair(
                key_of(#[trigger] list[i]),
                list[i],
            ),
        forall|key: RecordKey| #[trigger]
            by_key(list).contains_key(key) ==> exists|i: int|
                0 <= i < list.len() && key_of(#[trigger] list[i]) == key,
    decreases list.len(),
{
    if list.len() > 0 {
        let front = list.drop_last();
        assert forall|i: int, j: int| 0 <= i < j < front.len() implies key_of(#[trigger] front[i])
            != key_of(#[trigger] front[j]) by {
            assert(list[i] == front[i] && list[j] == front[j]);
        }
        lemma_by_key(front);
        assert forall|i: int| 0 <= i < list.len() implies by_key(list).contains_pair(
            key_of(#[trigger] list[i]),
            list[i],
        ) by {
            if i < front.len() {
                assert(front[i] == list[i]);
                assert(key_of(list[i]) != key_of(list[list.len() - 1]));
            }
        }
        assert forall|key: RecordKey| #[trigger] by_key(list).contains_key(key) implies exists|
            i: int,
        |
            0 <= i < list.len() && key_of(#[trigger] list[i]) == key by {
            if key == key_of(list.last()) {
                assert(key_of(list[list.len() - 1]) == key);
            } else {
                assert(by_key(front).contains_key(key));
                let i = choose|i: int| 0 <= i < front.len() && key_of(#[trigger] front[i]) == key;
                assert(key_of(list[i]) == key);
            }
        }
    }
}

/// Replacing a record by another of its key replaces it in the map.
proof fn lemma_by_key_update(list: Seq<RemoteView>, i: int, r: RemoteView)
    requires
        keys_differ(list),
        0 <= i < list.len(),
        key_of(r) == key_of(list[i]),
    ensures
        keys_differ(list.update(i, r)),
        by_key(list.update(i, r)) == by_key(list).insert(key_of(r), r),
{
    let new = list.update(i, r);
    assert forall|a: int, b: int| 0 <= a < b < new.len() implies key_of(#[trigger] new[a])
        != key_of(#[trigger] new[b]) by {
        assert(key_of(list[a]) != key_of(list[b]));
    }
    lemma_by_key(list);
    lemma_by_key(new);
    let m = by_key(new);
    let n = by_key(list).insert(key_of(r), r);
    assert forall|key: RecordKey|
        #![trigger m.dom().contains(key)]
        #![trigger n.dom().contains(key)]
        m.dom().contains(key) == n.dom().contains(key) && (m.dom().contains(key) ==> m[key]
            == n[key]) by {
        if m.contains_key(key) {
            let a = choose|a: int| 0 <= a < new.len() && key_of(#[trigger] new[a]) == key;
            assert(m.contains_pair(key_of(new[a]), new[a]));
            if a != i {
                assert(by_key(list).contains_pair(key_of(list[a]), list[a]));
                assert(key != key_of(r)) by {
                    if a < i {
                        assert(key_of(list[a]) != key_of(list[i]));
                    } else {
                        assert(key_of(list[i]) != key_of(list[a]));
                    }
                }
            } else {
                assert(new[a] == r);
            }
        } else if n.contains_key(key) {
            if key == key_of(r) {
                assert(m.contains_pair(key_of(new[i]), new[i]));
            } else {
                let a = choose|a: int| 0 <= a < list.len() && key_of(#[trigger] list[a]) == key;
                assert(a != i);
                assert(m.contains_pair(key_of(new[a]), new[a]));
            }
        }
    }
    assert(m =~= n);
}

impl InMemoryStore {
    /// Whether no two records of the store have the same key.
    pub closed spec fn wf(&self) -> bool {
        keys_differ(remotes_view(self.records@))
    }

    /// An empty store.
    pub fn new() -> (r: InMemoryStore)
        ensures
            r.wf(),
            r@ == Map::<RecordKey, RemoteView>::empty(),
    {
        let r = InMemoryStore { records: Vec::new() };
        assert(remotes_view(r.records@) =~= Seq::<RemoteView>::empty());
        r
    }

    /// Pushes a change. It is accepted where the store has no record of its
    /// key or an earlier one; otherwise the store stays as it is.
    pub fn push_one(&mut self, entry: &OutboxPushEntry) -> (r: PushResult)
        requires
            old(self).wf(),
        ensures
            final(self).wf(),
            final(self)@ == pushed(old(self)@, entry@),
            r@ == (if accepts(old(self)@, entry@) {
                PushView::Accepted { pushed_seqs: seq![entry.seq] }
            } else {
                PushView::ConflictAt { record_id: entry.record_id@, seq: entry.seq }
            }),
    {
        let ghost list = remotes_view(self.records@);
        let ghost key = (entry.record_id@, entry.collection@);
        proof {
            lemma_by_key(list);
        }
        let record = RemoteRecord::from_entry(entry);
        let mut i: usize = 0;
        while i < self.records.len()
            invariant
                i <= self.records@.len(),
                *self == *old(self),
                list == remotes_view(self.records@),
                key == (entry.record_id@, entry.collection@),
                keys_differ(list),
                forall|k: int|
                    0 <= k < list.len() ==> by_key(list).contains_pair(
                        key_of(#[trigger] list[k]),
                        list[k],
                    ),
                record@ == remote_of(entry@),
                forall|k: int| 0 <= k < i ==> key_of(#[trigger] list[k]) != key,
            decreases self.records@.len() - i,
        {
            if text_same(self.records[i].record_id.as_str(), entry.record_id.as_str()) && text_same(
                self.records[i].collection.as_str(),
                entry.collection.as_str(),
            ) {
                assert(key_of(list[i as int]) == key);
                assert(by_key(list).contains_pair(key_of(list[i as int]), list[i as int]));
                if !text_less(self.records[i].hlc.as_str(), entry.hlc.as_str()) {
                    return PushResult::ConflictAt {
                        record_id: entry.record_id.clone(),
                        seq: entry.seq,
                    };
                }
                proof {
                    lemma_by_key_update(list, i as int, record@);
                    assert(remotes_view(self.records@.update(i as int, record)) =~= list.update(
                        i as int,
                        record@,
                    ));
                }
                self.records[i] = record;
                let seqs: Vec<i64> = vec![entry.seq];
                assert(seqs@ =~= seq![entry.seq]);
                return PushResult::Accepted { pushed_seqs: seqs };
            }
            assert(key_of(list[i as int]) != key);
            i = i + 1;
        }
        proof {
            let new = list.push(record@);
            assert(remotes_view(self.records@.push(record)) =~= new);
            assert(new.drop_last() =~= list);
            assert forall|a: int, b: int| 0 <= a < b < new.len() implies key_of(#[trigger] new[a])
                != key_of(#[trigger] new[b]) by {
                if b < list.len() {
                    assert(key_of(list[a]) != key_of(list[b]));
                } else {
                    assert(key_of(list[a]) != key);
                }
            }
            if by_key(list).contains_key(key) {
                let k = choose|k: int| 0 <= k < list.len() && key_of(#[trigger] list[k]) == key;
                assert(false);
            }
        }
        self.records.push(record);
        let seqs: Vec<i64> = vec![entry.seq];
        assert(seqs@ =~= seq![entry.seq]);
        PushResult::Accepted { pushed_seqs: seqs }
    }

    /// The records after a checkpoint, or all, in ascending order of their
    /// clock readings.
    pub fn pull_since(&self, checkpoint: Option<&str>) -> (r: Vec<RemoteRecord>)
        requires
            self.wf(),
        ensures
            is_pull(self@, opt_str(checkpoint), remotes_view(r@)),
    {
        let ghost list = remotes_view(self.records@);
        let ghost cp = opt_str(checkpoint);
        let mut out: Vec<RemoteRecord> = Vec::new();
        let mut i: usize = 0;
        while i < self.records.len()
            invariant
                i <= self.records@.len(),
                list == remotes_view(self.records@),
                cp == opt_str(checkpoint),
                keys_differ(list),
                drawn_from(remotes_view(out@), list.take(i as int), cp),
                keys_differ(remotes_view(out@)),
                in_order(remotes_view(out@)),
            decreases self.records@.len() - i,
        {
            let ghost before = remotes_view(out@);
            let wanted: bool = match checkpoint {
                None => true,
                Some(c) => text_less(c, self.records[i].hlc.as_str()),
            };
            if wanted {
                insert_in_order(&mut out, self.records[i].copy());
                proof {
                    let at = choose|at: int|
                        0 <= at <= before.len() && remotes_view(out@) == #[trigger] before.insert(
                            at,
                            list[i as int],
                        );
                    lemma_drawn_insert(before, list, i as int, at, cp);
                    lemma_keys_insert(before, list, i as int, at, cp);
                }
            } else {
                proof {
                    lemma_drawn_skip(before, list, i as int, cp);
                }
            }
            i = i + 1;
        }
        proof {
            assert(list.take(i as int) =~= list);
            lemma_by_key(list);
            let found = remotes_view(out@);
            assert forall|k: int| 0 <= k < found.len() implies {
                &&& self@.contains_pair(key_of(#[trigger] found[k]), found[k])
                &&& is_after(found[k], cp)
            } by {
                let j = choose|j: int| 0 <= j < list.len() && #[trigger] list[j] == found[k];
                assert(self@.contains_pair(key_of(list[j]), list[j]));
            }
            assert forall|key: RecordKey| #[trigger]
                self@.contains_key(key) && is_after(self@[key], cp) implies exists|k: int|
                0 <= k < found.len() && #[trigger] found[k] == self@[key] by {
                let j = choose|j: int| 0 <= j < list.len() && key_of(#[trigger] list[j]) == key;
                assert(self@.contains_pair(key_of(list[j]), list[j]));
                assert(is_after(list[j], cp));
            }
        }
        out
    }
}

impl Default for InMemoryStore {
    fn default() -> (r: InMemoryStore)
        ensures
            r.wf(),
            r@ == Map::<RecordKey, RemoteView>::empty(),
    {
        InMemoryStore::new()
    }
}

/// The characters of an optional string slice.
pub open spec fn opt_str(o: Option<&str>) -> Option<Seq<char>> {
    match o {
        Some(s) => Some(s@),
        None => None,
    }
}

/// Whether `found` holds the records of `list` after a checkpoint.
spec fn drawn_from(
    found: Seq<RemoteView>,
    list: Seq<RemoteView>,
    cp: Option<Seq<char>>,
) -> bool {
    &&& forall|k: int|
        0 <= k < found.len() ==> is_after(#[trigger] found[k], cp) && exists|j: int|
            0 <= j < list.len() && #[trigger] list[j] == found[k]
    &&& forall|j: int|
        0 <= j < list.len() && is_after(#[trigger] list[j], cp) ==> exists|k: int|
            0 <= k < found.len() && #[trigger] found[k] == list[j]
}

proof fn lemma_drawn_skip(
    found: Seq<RemoteView>,
    list: Seq<RemoteView>,
    i: int,
    cp: Option<Seq<char>>,
)
    requires
        0 <= i < list.len(),
        drawn_from(found, list.take(i), cp),
        !is_after(list[i], cp),
    ensures
        drawn_from(found, list.take(i + 1), cp),
{
    let (a, b) = (list.take(i), list.take(i + 1));
    assert forall|k: int| 0 <= k < found.len() implies is_after(#[trigger] found[k], cp) && exists|
        j: int,
    |
        0 <= j < b.len() && #[trigger] b[j] == found[k] by {
        let j = choose|j: int| 0 <= j < a.len() && #[trigger] a[j] == found[k];
        assert(b[j] == found[k]);
    }
    assert forall|j: int| 0 <= j < b.len() && is_after(#[trigger] b[j], cp) implies exists|k: int|
        0 <= k < found.len() && #[trigger] found[k] == b[j] by {
        assert(j < i);
        assert(a[j] == b[j]);
    }
}

proof fn lemma_drawn_insert(
    found: Seq<RemoteView>,
    list: Seq<RemoteView>,
    i: int,
    at: int,
    cp: Option<Seq<char>>,
)
    requires
        0 <= i < list.len(),
        0 <= at <= found.len(),
        drawn_from(found, list.take(i), cp),
        is_after(list[i], cp),
    ensures
        drawn_from(found.insert(at, list[i]), list.take(i + 1), cp),
{
    let (a, b) = (list.take(i), list.take(i + 1));
    let new = found.insert(at, list[i]);
    assert forall|k: int| 0 <= k < new.len() implies is_after(#[trigger] new[k], cp) && exists|
        j: int,
    |
        0 <= j < b.len() && #[trigger] b[j] == new[k] by {
        if k == at {
            assert(b[i] == new[k]);
        } else {
            let old_k = if k < at { k } else { k - 1 };
            assert(new[k] == found[old_k]);
            let j = choose|j: int| 0 <= j < a.len() && #[trigger] a[j] == found[old_k];
            assert(b[j] == new[k]);
        }
    }
    assert forall|j: int| 0 <= j < b.len() && is_after(#[trigger] b[j], cp) implies exists|k: int|
        0 <= k < new.len() && #[trigger] new[k] == b[j] by {
        if j == i {
            assert(new[at] == b[j]);
        } else {
            assert(a[j] == b[j]);
            let k = choose|k: int| 0 <= k < found.len() && #[trigger] found[k] == a[j];
            let new_k = if k < at { k } else { k + 1 };
            assert(new[new_k] == b[j]);
        }
    }
}

proof fn lemma_keys_insert(
    found: Seq<RemoteView>,
    list: Seq<RemoteView>,
    i: int,
    at: int,
    cp: Option<Seq<char>>,
)
    requires
        0 <= i < list.len(),
        0 <= at <= found.len(),
        keys_differ(list),
        keys_differ(found),
        drawn_from(found, list.take(i), cp),
    ensures
        keys_differ(found.insert(at, list[i])),
{
    let a = list.take(i);
    let new = found.insert(at, list[i]);
    assert forall|k: int| 0 <= k < found.len() implies key_of(#[trigger] found[k]) != key_of(
        list[i],
    ) by {
        let j = choose|j: int| 0 <= j < a.len() && #[trigger] a[j] == found[k];
        assert(a[j] == list[j]);
        assert(key_of(list[j]) != key_of(list[i]));
    }
    assert forall|x: int, y: int| 0 <= x < y < new.len() implies key_of(#[trigger] new[x])
        != key_of(#[trigger] new[y]) by {
        let ox = if x < at { x } else { x - 1 };
        let oy = if y < at { y } else { y - 1 };
        if x != at {
            assert(new[x] == found[ox]);
        }
        if y != at {
            assert(new[y] == found[oy]);
        }
        if x != at && y != at {
            assert(key_of(found[ox]) != key_of(found[oy]));
        }
    }
}

/// Inserts a record behind all that are not later.
fn insert_in_order(list: &mut Vec<RemoteRecord>, record: RemoteRecord)
    requires
        in_order(remotes_view(old(list)@)),
    ensures
        in_order(remotes_view(final(list)@)),
        exists|at: int|
            0 <= at <= old(list)@.len() && remotes_view(final(list)@) == #[trigger] remotes_view(
                old(list)@,
            ).insert(at, record@),
{
    let ghost before = remotes_view(list@);
    let mut at: usize = list.len();
    while at > 0 && text_less(record.hlc.as_str(), list[at - 1].hlc.as_str())
        invariant
            at <= list@.len(),
            before == remotes_view(list@),
            *list == *old(list),
            forall|k: int|
                at <= k < list@.len() ==> text_lt(record@.hlc, (#[trigger] before[k]).hlc),
        decreases at,
    {
        at = at - 1;
        assert(before[at as int] == list@[at as int]@);
    }
    let ghost new = before.insert(at as int, record@);
    proof {
        if at > 0 {
            assert(before[at - 1] == list@[at - 1]@);
        }
        assert forall|i: int, j: int| 0 <= i < j < new.len() implies !text_lt(
            (#[trigger] new[j]).hlc,
            (#[trigger] new[i]).hlc,
        ) by {
            let oi = if i < at { i } else { i - 1 };
            let oj = if j < at { j } else { j - 1 };
            if i != at {
                assert(new[i] == before[oi]);
            }
            if j != at {
                assert(new[j] == before[oj]);
            }
            if i == at {
                assert(text_lt(record@.hlc, before[oj].hlc));
                lemma_text_lt_order(record@.hlc, before[oj].hlc, record@.hlc);
            } else if j == at {
                // The record before the place is not later than the new one,
                // and those before it are not later than that.
                assert(at > 0);
                assert(!text_lt(record@.hlc, before[at - 1].hlc));
                if oi < at - 1 {
                    assert(!text_lt(before[at - 1].hlc, before[oi].hlc));
                    lemma_text_lt_order(before[oi].hlc, before[at - 1].hlc, record@.hlc);
                }
            } else {
                assert(!text_lt(before[oj].hlc, before[oi].hlc));
            }
        }
    }
    list.insert(at, record);
    assert(remotes_view(list@) =~= new);
}

// ── Laws of a last-write-wins store ─────────────────────────────────────────

/// A push never takes a record away nor puts an earlier one in its place, and
/// touches no record of another key.
pub proof fn law_push_never_goes_back(records: RemoteRecords, e: EntryView, key: RecordKey)
    requires
        records.contains_key(key),
    ensures
        pushed(records, e).contains_key(key),
        !text_lt(pushed(records, e)[key].hlc, records[key].hlc),
        key != (e.record_id, e.collection) ==> pushed(records, e)[key] == records[key],
{
    lemma_text_lt_order(records[key].hlc, e.hlc, records[key].hlc);
}

/// After a push the store has a record of that key at least as late as the
/// change: the change itself, or one that is not earlier.
pub proof fn law_push_leaves_the_later(records: RemoteRecords, e: EntryView)
    ensures
        ({
            let key = (e.record_id, e.collection);
            let after = pushed(records, e);
            &&& after.contains_key(key)
            &&& !text_lt(after[key].hlc, e.hlc)
            &&& after[key] == remote_of(e) || records.contains_pair(key, after[key])
        }),
{
    lemma_text_lt_order(e.hlc, e.hlc, e.hlc);
}

/// Pushing a change again changes nothing, and is a conflict.
pub proof fn law_push_is_idempotent(records: RemoteRecords, e: EntryView)
    ensures
        !accepts(pushed(records, e), e),
        pushed(pushed(records, e), e) == pushed(records, e),
{
    lemma_text_lt_order(e.hlc, e.hlc, e.hlc);
}

/// Two changes leave the same store in whichever order they are pushed, unless
/// they make different records of the same key under the same clock reading.
pub proof fn law_pushes_commute(records: RemoteRecords, a: EntryView, b: EntryView)
    requires
        (a.record_id, a.collection) != (b.record_id, b.collection) || a.hlc != b.hlc || remote_of(a)
            == remote_of(b),
    ensures
        pushed(pushed(records, a), b) == pushed(pushed(records, b), a),
{
    let key = (a.record_id, a.collection);
    lemma_text_lt_order(a.hlc, b.hlc, a.hlc);
    lemma_text_lt_order(b.hlc, a.hlc, b.hlc);
    if records.contains_key(key) {
        let h = records[key].hlc;
        lemma_text_lt_order(h, a.hlc, b.hlc);
        lemma_text_lt_order(h, b.hlc, a.hlc);
        lemma_text_lt_order(a.hlc, h, b.hlc);
        lemma_text_lt_order(b.hlc, h, a.hlc);
    }
    assert(pushed(pushed(records, a), b) =~= pushed(pushed(records, b), a));
}

/// The records after a sequence of pushes.
pub open spec fn pushed_all(records: RemoteRecords, entries: Seq<EntryView>) -> RemoteRecords
    decreases entries.len(),
{
    if entries.len() == 0 {
        records
    } else {
        pushed(pushed_all(records, entries.drop_last()), entries.last())
    }
}

/// After any sequence of pushes to an empty store, each pushed record is there,
/// as one of the changes pushed for it, and none of them is later.
pub proof fn law_last_write_wins(entries: Seq<EntryView>, i: int)
    requires
        0 <= i < entries.len(),
    ensures
        ({
            let key = (entries[i].record_id, entries[i].collection);
            let after = pushed_all(Map::empty(), entries);
            &&& after.contains_key(key)
            &&& !text_lt(after[key].hlc, entries[i].hlc)
            &&& exists|j: int|
                0 <= j < entries.len() && (entries[j].record_id, entries[j].collection) == key
                    && after[key] == remote_of(#[trigger] entries[j])
        }),
    decreases entries.len(),
{
    let front = entries.drop_last();
    let last = entries.last();
    let before = pushed_all(Map::empty(), front);
    let key = (entries[i].record_id, entries[i].collection);
    let after = pushed_all(Map::empty(), entries);
    law_push_leaves_the_later(before, last);
    if i < front.len() {
        assert(front[i] == entries[i]);
        law_last_write_wins(front, i);
        law_push_never_goes_back(before, last, key);
        lemma_text_lt_order(entries[i].hlc, before[key].hlc, after[key].hlc);
        let j = choose|j: int|
            0 <= j < front.len() && (front[j].record_id, front[j].collection) == key && before[key]
                == remote_of(#[trigger] front[j]);
        assert(entries[j] == front[j]);
        if after[key] != before[key] {
            assert(after[key] == remote_of(entries[entries.len() - 1]));
        }
    } else {
        lemma_only_pushed(front, key);
        if after[key] == remote_of(last) {
            assert(after[key] == remote_of(entries[entries.len() - 1]));
        } else {
            let j = choose|j: int|
                0 <= j < front.len() && (front[j].record_id, front[j].collection) == key
                    && before[key] == remote_of(#[trigger] front[j]);
            assert(entries[j] == front[j]);
        }
    }
}

/// What a store that was empty holds was pushed.
proof fn lemma_only_pushed(entries: Seq<EntryView>, key: RecordKey)
    ensures
        pushed_all(Map::empty(), entries).contains_key(key) ==> exists|j: int|
            0 <= j < entries.len() && (entries[j].record_id, entries[j].collection) == key
                && pushed_all(Map::empty(), entries)[key] == remote_of(#[trigger] entries[j]),
    decreases entries.len(),
{
    if entries.len() > 0 {
        let front = entries.drop_last();
        lemma_only_pushed(front, key);
        let before = pushed_all(Map::empty(), front);
        let after = pushed_all(Map::empty(), entries);
        if after.contains_key(key) {
            if before.contains_key(key) && after[key] == before[key] {
                let j = choose|j: int|
                    0 <= j < front.len() && (front[j].record_id, front[j].collection) == key
                        && before[key] == remote_of(#[trigger] front[j]);
                assert(entries[j] == front[j]);
            } else {
                assert(after[key] == remote_of(entries[entries.len() - 1]));
            }
        }
    }
}

} // verus!
