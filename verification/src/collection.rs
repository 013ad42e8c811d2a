//! Settings of a collection.

use vstd::prelude::*;
use vstd::string::*;

use crate::text::text_same;

verus! {

/// Whether the records of a collection are encrypted. A record's own setting
/// goes before it; it goes before the engine's.
#[derive(Debug, Clone, Copy, PartialEq, Eq, Structural)]
pub enum CollectionEncryption {
    /// As the engine says.
    Default,
    /// Encrypted.
    Enabled,
    /// Plain.
    Disabled,
}

impl Default for CollectionEncryption {
    fn default() -> (r: CollectionEncryption)
        ensures
            r == CollectionEncryption::Default,
    {
        CollectionEncryption::Default
    }
}

/// A field of the payload that is to be indexed.
#[derive(Debug, Clone)]
pub struct IndexDef {
    /// The path of the field in the JSON payload, with dots, such as
    /// `metadata.year`.
    pub field_path: String,
    pub kind: IndexKind,
}

impl IndexDef {
    /// An index on the field at `field_path`.
    pub fn new(field_path: String, kind: IndexKind) -> (r: IndexDef)
        ensures
            r.field_path == field_path,
            r.kind == kind,
    {
        IndexDef { field_path, kind }
    }
}

/// What an indexed field holds.
#[derive(Debug, Clone, Copy, PartialEq, Eq, Structural)]
pub enum IndexKind {
    Text,
    Integer,
    Float,
    /// A JSON array of strings.
    TextArray,
}

/// The settings of a collection.
#[derive(Debug, Clone)]
pub struct CollectionConfig {
    /// The schema version that is expected of the records.
    pub schema_version: u32,
    pub encryption: CollectionEncryption,
    /// Whether there is a hook that migrates records of an earlier version.
    pub has_migrate: bool,
    /// Fields to index for structured queries.
    pub indices: Vec<IndexDef>,
    /// Fields to index for full-text search.
    pub fts_fields: Vec<String>,
}

impl Default for CollectionConfig {
    fn default() -> (r: CollectionConfig)
        ensures
            r.schema_version == 0,
            r.encryption == CollectionEncryption::Default,
            !r.has_migrate,
            r.indices@.len() == 0,
            r.fts_fields@.len() == 0,
    {
        CollectionConfig {
            schema_version: 0,
            encryption: CollectionEncryption::Default,
            has_migrate: false,
            indices: Vec::new(),
            fts_fields: Vec::new(),
        }
    }
}

/// The settings of the collection `name` in a list of named settings.
pub open spec fn config_of(list: Seq<(String, CollectionConfig)>, name: Seq<char>) -> Option<
    CollectionConfig,
>
    decreases list.len(),
{
    if list.len() == 0 {
        None
    } else if list.last().0@ == name {
        Some(list.last().1)
    } else {
        config_of(list.drop_last(), name)
    }
}

/// Whether no name stands twice in a list of named settings.
pub open spec fn names_differ(list: Seq<(String, CollectionConfig)>) -> bool {
    forall|i: int, j: int|
        0 <= i < j < list.len() ==> (#[trigger] list[i]).0@ != (#[trigger] list[j]).0@
}

/// Finds the settings of a collection.
pub fn find_config<'a>(list: &'a Vec<(String, CollectionConfig)>, name: &str) -> (r: Option<
    &'a CollectionConfig,
>)
    ensures
        match config_of(list@, name@) {
            Some(c) => r is Some && *r->0 == c,
            None => r is None,
        },
{
    let mut i: usize = list.len();
    assert(list@.take(i as int) =~= list@);
    while i > 0
        invariant
            i <= list@.len(),
            config_of(list@, name@) == config_of(list@.take(i as int), name@),
        decreases i,
    {
        assert(list@.take(i as int).drop_last() =~= list@.take(i - 1));
        if text_same(list[i - 1].0.as_str(), name) {
            return Some(&list[i - 1].1);
        }
        i = i - 1;
    }
    None
}

pub(crate) proof fn lemma_config_of(list: Seq<(String, CollectionConfig)>, name: Seq<char>)
    requires
        names_differ(list),
    ensures
        forall|i: int|
            0 <= i < list.len() && (#[trigger] list[i]).0@ == name ==> config_of(list, name)
                == Some(list[i].1),
        (forall|i: int| 0 <= i < list.len() ==> (#[trigger] list[i]).0@ != name) ==> config_of(
            list,
            name,
        ) is None,
    decreases list.len(),
{
    if list.len() > 0 {
        let front = list.drop_last();
        assert forall|i: int, j: int| 0 <= i < j < front.len() implies (#[trigger] front[i]).0@ != (
        #[trigger] front[j]).0@ by {
            assert(list[i].0@ != list[j].0@);
        }
        lemma_config_of(front, name);
        assert forall|i: int|
            0 <= i < list.len() && (#[trigger] list[i]).0@ == name implies config_of(list, name)
            == Some(list[i].1) by {
            if i < front.len() {
                assert(front[i] == list[i]);
                assert(list[i].0@ != list[list.len() - 1].0@);
            }
        }
        if forall|i: int| 0 <= i < list.len() ==> (#[trigger] list[i]).0@ != name {
            assert forall|i: int| 0 <= i < front.len() implies (#[trigger] front[i]).0@ != name by {
                assert(list[i].0@ != name);
            }
            assert(list[list.len() - 1].0@ != name);
        }
    }
}

/// Gives a collection its settings, in the place of those that it may have had.
pub fn put_config(
    list: &mut Vec<(String, CollectionConfig)>,
    name: String,
    config: CollectionConfig,
)
    requires
        names_differ(old(list)@),
    ensures
        names_differ(final(list)@),
        forall|n: Seq<char>| #[trigger]
            config_of(final(list)@, n) == (if n == name@ {
                Some(config)
            } else {
                config_of(old(list)@, n)
            }),
{
    let ghost before = list@;
    let mut i: usize = 0;
    while i < list.len()
        invariant
            i <= list@.len(),
            *list == *old(list),
            before == list@,
            names_differ(before),
            forall|k: int| 0 <= k < i ==> (#[trigger] before[k]).0@ != name@,
        decreases list@.len() - i,
    {
        if text_same(list[i].0.as_str(), name.as_str()) {
            let ghost after = before.update(i as int, (name, config));
            proof {
                assert forall|a: int, b: int| 0 <= a < b < after.len() implies (
                #[trigger] after[a]).0@ != (#[trigger] after[b]).0@ by {
                    assert(before[a].0@ != before[b].0@);
                }
                assert forall|n: Seq<char>| #[trigger]
                    config_of(after, n) == (if n == name@ {
                        Some(config)
                    } else {
                        config_of(before, n)
                    }) by {
                    lemma_config_of(after, n);
                    lemma_config_of(before, n);
                    if n == name@ {
                        assert(after[i as int].0@ == n);
                    } else if exists|k: int| 0 <= k < before.len() && (#[trigger] before[k]).0@
                        == n {
                        let k = choose|k: int|
                            0 <= k < before.len() && (#[trigger] before[k]).0@ == n;
                        assert(k != i);
                        assert(after[k] == before[k]);
                        assert(after[k].0@ == n);
                    } else {
                        assert forall|k: int| 0 <= k < after.len() implies (
                        #[trigger] after[k]).0@ != n by {
                            assert(before[k].0@ != n);
                        }
                    }
                }
            }
            list[i] = (name, config);
            return;
        }
        i = i + 1;
    }
    let ghost after = before.push((name, config));
    proof {
        assert forall|a: int, b: int| 0 <= a < b < after.len() implies (#[trigger] after[a]).0@ != (
        #[trigger] after[b]).0@ by {
            if b < before.len() {
                assert(before[a].0@ != before[b].0@);
            } else {
                assert(before[a].0@ != name@);
            }
        }
        assert(after.drop_last() =~= before);
    }
    list.push((name, config));
}

} // verus!
