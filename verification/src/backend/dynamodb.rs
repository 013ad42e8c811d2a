//! Records in DynamoDB: items, the table, and what its answers mean.
//!
//! One table, with the record id and the collection as its key, and an index
//! over all records by their clock readings, so that a pull reads no more than
//! what has changed.

use vstd::prelude::*;
use vstd::string::*;

use crate::backend::in_memory::{opt_str, remotes_view};
use crate::backend::wire::{
    remote_of, BackendError, BackendErrorView, EntryView, OutboxPushEntry, PushResult, PushView,
    RemoteRecord, RemoteView,
};
use crate::db::row::{copy_bytes, opt_bytes};
use crate::text::{
    contains_text, decimal, decimal_text, lemma_decimal_round_trip, parse_decimal,
    parse_decimal_text, text_contains, text_same,
};

verus! {

// ── Configuration ───────────────────────────────────────────────────────────

/// Where the table is and how it is reached.
pub struct DynamoDbConfig {
    pub table_name: String,
    /// An AWS region, such as "us-east-1".
    pub region: String,
    /// Another endpoint than the region's.
    pub endpoint_url: Option<String>,
    pub credentials: AwsCredentials,
}

/// Who reaches it.
pub enum AwsCredentials {
    /// Whoever the environment says.
    FromEnvironment,
    /// Whoever is named here.
    Explicit {
        access_key_id: String,
        secret_access_key: String,
        session_token: Option<String>,
    },
}

// ── Items ───────────────────────────────────────────────────────────────────

/// An attribute of an item: text, a number as text, bytes, or something that
/// records do not use.
#[derive(Debug, Clone)]
pub enum Attribute {
    S(String),
    N(String),
    B(Vec<u8>),
    Other,
}

/// An attribute, as characters and bytes.
pub enum AttributeView {
    S(Seq<char>),
    N(Seq<char>),
    B(Seq<u8>),
    Other,
}

impl View for Attribute {
    type V = AttributeView;

    open spec fn view(&self) -> AttributeView {
        match self {
            Attribute::S(s) => AttributeView::S(s@),
            Attribute::N(n) => AttributeView::N(n@),
            Attribute::B(b) => AttributeView::B(b@),
            Attribute::Other => AttributeView::Other,
        }
    }
}

/// The names and views of an item's attributes.
pub open spec fn item_view(item: Seq<(String, Attribute)>) -> Seq<(Seq<char>, AttributeView)> {
    Seq::new(item.len(), |i: int| (item[i].0@, item[i].1@))
}

/// The attribute of a name.
pub open spec fn attribute_of(item: Seq<(Seq<char>, AttributeView)>, name: Seq<char>) -> Option<
    AttributeView,
>
    decreases item.len(),
{
    if item.len() == 0 {
        None
    } else if item.last().0 == name {
        Some(item.last().1)
    } else {
        attribute_of(item.drop_last(), name)
    }
}

/// The value of the index's partition: all records are in one.
pub const PARTITION: &'static str = "main";

/// The attributes of a change.
pub open spec fn item_of(e: EntryView) -> Seq<(Seq<char>, AttributeView)> {
    let base = seq![
        ("record_id"@, AttributeView::S(e.record_id)),
        ("collection"@, AttributeView::S(e.collection)),
        ("hlc"@, AttributeView::S(e.hlc)),
        ("operation"@, AttributeView::S(e.operation)),
        ("schema_version"@, AttributeView::N(decimal(e.schema_version as nat))),
        ("format_version"@, AttributeView::N(decimal(e.format_version as nat))),
        (
            "deleted"@,
            AttributeView::N(
                if e.operation == "delete"@ {
                    "1"@
                } else {
                    "0"@
                },
            ),
        ),
        ("_p"@, AttributeView::S(PARTITION@)),
    ];
    let with_data = match e.data {
        Some(d) => base.push(("data"@, AttributeView::B(d))),
        None => base,
    };
    match e.dek_encrypted {
        Some(d) => with_data.push(("dek_encrypted"@, AttributeView::B(d))),
        None => with_data,
    }
}

/// The item of a change.
pub fn item_from_entry(entry: &OutboxPushEntry) -> (r: Vec<(String, Attribute)>)
    ensures
        item_view(r@) == item_of(entry@),
{
    let schema = decimal_text(entry.schema_version as u128);
    let format = decimal_text(entry.format_version as u128);
    let gone = if text_same(entry.operation.as_str(), "delete") {
        "1"
    } else {
        "0"
    };
    let mut item: Vec<(String, Attribute)> = vec![
        ("record_id".to_owned(), Attribute::S(entry.record_id.clone())),
        ("collection".to_owned(), Attribute::S(entry.collection.clone())),
        ("hlc".to_owned(), Attribute::S(entry.hlc.clone())),
        ("operation".to_owned(), Attribute::S(entry.operation.clone())),
        ("schema_version".to_owned(), Attribute::N(schema)),
        ("format_version".to_owned(), Attribute::N(format)),
        ("deleted".to_owned(), Attribute::N(gone.to_owned())),
        ("_p".to_owned(), Attribute::S(PARTITION.to_owned())),
    ];
    let ghost base = item_of(EntryView { data: None, dek_encrypted: None, ..entry@ });
    assert(item_view(item@) =~= base);
    if let Some(d) = &entry.data {
        item.push(("data".to_owned(), Attribute::B(copy_bytes(d))));
        assert(item_view(item@) =~= base.push(("data"@, AttributeView::B(d@))));
    }
    let ghost middle = item_view(item@);
    if let Some(d) = &entry.dek_encrypted {
        item.push(("dek_encrypted".to_owned(), Attribute::B(copy_bytes(d))));
        assert(item_view(item@) =~= middle.push(("dek_encrypted"@, AttributeView::B(d@))));
    }
    item
}

/// The text of an attribute that is one.
pub open spec fn text_of(a: Option<AttributeView>) -> Option<Seq<char>> {
    match a {
        Some(AttributeView::S(s)) => Some(s),
        _ => None,
    }
}

/// The number of an attribute, or zero where it is none or too large.
pub open spec fn number_of(a: Option<AttributeView>, max: nat) -> nat {
    match a {
        Some(AttributeView::N(n)) => match parse_decimal(n, max) {
            Some(v) => v,
            None => 0,
        },
        _ => 0,
    }
}

/// The bytes of an attribute that is some.
pub open spec fn bytes_of(a: Option<AttributeView>) -> Option<Seq<u8>> {
    match a {
        Some(AttributeView::B(b)) => Some(b),
        _ => None,
    }
}

/// The record of an item, if it has an id, a collection and a clock reading.
pub open spec fn record_of_item(item: Seq<(Seq<char>, AttributeView)>) -> Option<RemoteView> {
    match (
        text_of(attribute_of(item, "record_id"@)),
        text_of(attribute_of(item, "collection"@)),
        text_of(attribute_of(item, "hlc"@)),
    ) {
        (Some(record_id), Some(collection), Some(hlc)) => Some(
            RemoteView {
                record_id,
                collection,
                hlc,
                data: bytes_of(attribute_of(item, "data"@)),
                dek_encrypted: bytes_of(attribute_of(item, "dek_encrypted"@)),
                deleted: number_of(attribute_of(item, "deleted"@), 255) != 0,
                schema_version: number_of(
                    attribute_of(item, "schema_version"@),
                    u32::MAX as nat,
                ) as u32,
                format_version: number_of(attribute_of(item, "format_version"@), 255) as u8,
            },
        ),
        _ => None,
    }
}

fn find_attribute<'a>(item: &'a Vec<(String, Attribute)>, name: &str) -> (r: Option<&'a Attribute>)
    ensures
        match attribute_of(item_view(item@), name@) {
            Some(a) => r is Some && r->0@ == a,
            None => r is None,
        },
{
    let ghost view = item_view(item@);
    let mut i: usize = item.len();
    assert(view.take(i as int) =~= view);
    while i > 0
        invariant
            i <= item@.len(),
            view == item_view(item@),
            attribute_of(view, name@) == attribute_of(view.take(i as int), name@),
        decreases i,
    {
        assert(view.take(i as int).drop_last() =~= view.take(i - 1));
        assert(view.take(i as int).last() == (item@[i - 1].0@, item@[i - 1].1@));
        if text_same(item[i - 1].0.as_str(), name) {
            return Some(&item[i - 1].1);
        }
        i = i - 1;
    }
    None
}

fn find_text(item: &Vec<(String, Attribute)>, name: &str) -> (r: Option<String>)
    ensures
        crate::db::row::opt_text(r) == text_of(attribute_of(item_view(item@), name@)),
{
    match find_attribute(item, name) {
        Some(Attribute::S(s)) => Some(s.clone()),
        _ => None,
    }
}

fn find_bytes(item: &Vec<(String, Attribute)>, name: &str) -> (r: Option<Vec<u8>>)
    ensures
        opt_bytes(r) == bytes_of(attribute_of(item_view(item@), name@)),
{
    match find_attribute(item, name) {
        Some(Attribute::B(b)) => Some(copy_bytes(b)),
        _ => None,
    }
}

fn find_number(item: &Vec<(String, Attribute)>, name: &str, max: u32) -> (r: u32)
    ensures
        r as nat == number_of(attribute_of(item_view(item@), name@), max as nat),
        r <= max,
{
    match find_attribute(item, name) {
        Some(Attribute::N(n)) => match parse_decimal_text(n.as_str(), max) {
            Some(v) => v,
            None => 0,
        },
        _ => 0,
    }
}

/// The record of an item. One without an id, a collection or a clock reading is
/// none.
pub fn remote_record_from_item(item: &Vec<(String, Attribute)>) -> (r: Option<RemoteRecord>)
    ensures
        match record_of_item(item_view(item@)) {
            Some(v) => r is Some && r->0@ == v,
            None => r is None,
        },
{
    let record_id = find_text(item, "record_id");
    let collection = find_text(item, "collection");
    let hlc = find_text(item, "hlc");
    match (record_id, collection, hlc) {
        (Some(record_id), Some(collection), Some(hlc)) => Some(
            RemoteRecord {
                record_id,
                collection,
                hlc,
                data: find_bytes(item, "data"),
                dek_encrypted: find_bytes(item, "dek_encrypted"),
                deleted: find_number(item, "deleted", 255) != 0,
                schema_version: find_number(item, "schema_version", 0xffff_ffff),
                format_version: find_number(item, "format_version", 255) as u8,
            },
        ),
        _ => None,
    }
}

/// A change that was stored reads back as the record it stands for.
pub proof fn law_item_round_trip(e: EntryView)
    ensures
        record_of_item(item_of(e)) == Some(remote_of(e)),
{
    reveal_strlit("record_id");
    reveal_strlit("collection");
    reveal_strlit("hlc");
    reveal_strlit("operation");
    reveal_strlit("schema_version");
    reveal_strlit("format_version");
    reveal_strlit("deleted");
    reveal_strlit("_p");
    reveal_strlit("data");
    reveal_strlit("dek_encrypted");
    reveal_strlit("1");
    reveal_strlit("0");
    lemma_decimal_round_trip(e.schema_version as nat, u32::MAX as nat);
    lemma_decimal_round_trip(e.format_version as nat, 255);
    lemma_decimal_round_trip(1, 255);
    lemma_decimal_round_trip(0, 255);
    assert("1"@ =~= decimal(1));
    assert("0"@ =~= decimal(0));
    // The names differ in length or in their first letters.
    assert("record_id"@.len() == 9 && "collection"@.len() == 10 && "hlc"@.len() == 3);
    assert("operation"@.len() == 9 && "schema_version"@.len() == 14);
    assert("format_version"@.len() == 14 && "deleted"@.len() == 7 && "_p"@.len() == 2);
    assert("data"@.len() == 4 && "dek_encrypted"@.len() == 13);
    assert("record_id"@[0] == 'r' && "operation"@[0] == 'o');
    assert("schema_version"@[0] == 's' && "format_version"@[0] == 'f');
    let item = item_of(e);
    let base = item_of(EntryView { data: None, dek_encrypted: None, ..e });
    lemma_base_attributes(e);
    let with_data = item_of(EntryView { dek_encrypted: None, ..e });
    if e.data is Some {
        assert(with_data.drop_last() =~= base);
    } else {
        assert(with_data =~= base);
    }
    if e.dek_encrypted is Some {
        assert(item.drop_last() =~= with_data);
    } else {
        assert(item =~= with_data);
    }
    assert forall|name: Seq<char>| name != "data"@ && name != "dek_encrypted"@ implies
        #[trigger] attribute_of(item, name) == attribute_of(base, name) by {
        assert(attribute_of(with_data, name) == attribute_of(base, name));
    }
    assert(attribute_of(item, "data"@) == attribute_of(with_data, "data"@));
    assert(attribute_of(base, "data"@) is None);
    assert(attribute_of(base, "dek_encrypted"@) is None);
    assert(attribute_of(with_data, "dek_encrypted"@) is None);
}

/// The attributes that every change has.
proof fn lemma_base_attributes(e: EntryView)
    ensures
        ({
            let base = item_of(EntryView { data: None, dek_encrypted: None, ..e });
            &&& attribute_of(base, "record_id"@) == Some(AttributeView::S(e.record_id))
            &&& attribute_of(base, "collection"@) == Some(AttributeView::S(e.collection))
            &&& attribute_of(base, "hlc"@) == Some(AttributeView::S(e.hlc))
            &&& attribute_of(base, "schema_version"@) == Some(
                AttributeView::N(decimal(e.schema_version as nat)),
            )
            &&& attribute_of(base, "format_version"@) == Some(
                AttributeView::N(decimal(e.format_version as nat)),
            )
            &&& attribute_of(base, "deleted"@) == Some(
                AttributeView::N(
                    if e.operation == "delete"@ {
                        "1"@
                    } else {
                        "0"@
                    },
                ),
            )
            &&& attribute_of(base, "data"@) is None
            &&& attribute_of(base, "dek_encrypted"@) is None
        }),
{
    reveal_strlit("record_id");
    reveal_strlit("collection");
    reveal_strlit("hlc");
    reveal_strlit("operation");
    reveal_strlit("schema_version");
    reveal_strlit("format_version");
    reveal_strlit("deleted");
    reveal_strlit("_p");
    reveal_strlit("data");
    reveal_strlit("dek_encrypted");
    assert("record_id"@.len() == 9 && "collection"@.len() == 10 && "hlc"@.len() == 3);
    assert("operation"@.len() == 9 && "schema_version"@.len() == 14);
    assert("format_version"@.len() == 14 && "deleted"@.len() == 7 && "_p"@.len() == 2);
    assert("data"@.len() == 4 && "dek_encrypted"@.len() == 13);
    assert("record_id"@[0] == 'r' && "operation"@[0] == 'o');
    assert("schema_version"@[0] == 's' && "format_version"@[0] == 'f');
    let b8 = item_of(EntryView { data: None, dek_encrypted: None, ..e });
    let b7 = b8.drop_last();
    let b6 = b7.drop_last();
    let b5 = b6.drop_last();
    let b4 = b5.drop_last();
    let b3 = b4.drop_last();
    let b2 = b3.drop_last();
    let b1 = b2.drop_last();
    let b0 = b1.drop_last();
    assert(b8.len() == 8 && b0.len() == 0);
    assert(b8.last().0 == "_p"@ && b7.last().0 == "deleted"@ && b6.last().0 == "format_version"@);
    assert(b5.last().0 == "schema_version"@ && b4.last().0 == "operation"@);
    assert(b3.last().0 == "hlc"@ && b2.last().0 == "collection"@ && b1.last().0 == "record_id"@);
    reveal_with_fuel(attribute_of, 10);
}

// ── Push ────────────────────────────────────────────────────────────────────

/// The condition of a push: there is no record yet, or an earlier one.
pub const PUSH_CONDITION: &'static str = "attribute_not_exists(hlc) OR hlc < :local_hlc";

/// The value that the condition of a push compares with.
pub open spec fn push_bound(e: EntryView) -> Seq<(Seq<char>, AttributeView)> {
    seq![(":local_hlc"@, AttributeView::S(e.hlc))]
}

/// The value that the condition compares with: its name and the clock reading.
pub fn push_values(entry: &OutboxPushEntry) -> (r: Vec<(String, Attribute)>)
    ensures
        item_view(r@) == push_bound(entry@),
{
    let out: Vec<(String, Attribute)> = vec![
        (":local_hlc".to_owned(), Attribute::S(entry.hlc.clone())),
    ];
    assert(item_view(out@) =~= seq![(":local_hlc"@, AttributeView::S(entry.hlc@))]);
    out
}

/// What the answer to a push means. A failed condition is a conflict; every
/// other failure may pass.
pub open spec fn push_outcome(entry: EntryView, failure: Option<Seq<char>>) -> PushView {
    match failure {
        None => PushView::Accepted { pushed_seqs: seq![entry.seq] },
        Some(text) => if contains_text(text, "ConditionalCheckFailedException"@) {
            PushView::ConflictAt { record_id: entry.record_id, seq: entry.seq }
        } else {
            PushView::TransientError(text)
        },
    }
}

/// What the answer to a push means; `failure` is the text of its error.
pub fn push_result(entry: &OutboxPushEntry, failure: Option<String>) -> (r: PushResult)
    ensures
        r@ == push_outcome(entry@, crate::db::row::opt_text(failure)),
{
    match failure {
        None => {
            let seqs: Vec<i64> = vec![entry.seq];
            assert(seqs@ =~= seq![entry.seq]);
            PushResult::Accepted { pushed_seqs: seqs }
        },
        Some(text) => {
            if text_contains(text.as_str(), "ConditionalCheckFailedException") {
                PushResult::ConflictAt { record_id: entry.record_id.clone(), seq: entry.seq }
            } else {
                PushResult::TransientError(text)
            }
        },
    }
}

// ── Pull ────────────────────────────────────────────────────────────────────

/// The index that a pull reads.
pub const SYNC_INDEX: &'static str = "sync-index";

/// A request for the records after a checkpoint, in ascending order.
pub struct PullRequest {
    pub key_condition: &'static str,
    /// Names that the condition uses for attributes.
    pub names: Vec<(String, String)>,
    /// Values that the condition compares with.
    pub values: Vec<(String, Attribute)>,
    pub ascending: bool,
}

/// The condition of a pull.
pub open spec fn pull_condition(checkpoint: Option<Seq<char>>) -> Seq<char> {
    match checkpoint {
        Some(_) => "#p = :main AND hlc > :checkpoint"@,
        None => "#p = :main"@,
    }
}

/// The values of a pull's condition.
pub open spec fn pull_values(checkpoint: Option<Seq<char>>) -> Seq<(Seq<char>, AttributeView)> {
    let base = seq![(":main"@, AttributeView::S(PARTITION@))];
    match checkpoint {
        Some(cp) => base.push((":checkpoint"@, AttributeView::S(cp))),
        None => base,
    }
}

/// The request for the records after a checkpoint, or for all.
pub fn pull_request(checkpoint: Option<&str>) -> (r: PullRequest)
    ensures
        r.key_condition@ == pull_condition(opt_str(checkpoint)),
        r.names@.len() == 1,
        r.names@[0].0@ == "#p"@,
        r.names@[0].1@ == "_p"@,
        item_view(r.values@) == pull_values(opt_str(checkpoint)),
        r.ascending,
{
    let mut values: Vec<(String, Attribute)> = vec![
        (":main".to_owned(), Attribute::S(PARTITION.to_owned())),
    ];
    let ghost base = seq![(":main"@, AttributeView::S(PARTITION@))];
    assert(item_view(values@) =~= base);
    let key_condition: &'static str = match checkpoint {
        Some(cp) => {
            values.push((":checkpoint".to_owned(), Attribute::S(cp.to_owned())));
            assert(item_view(values@) =~= base.push((":checkpoint"@, AttributeView::S(cp@))));
            "#p = :main AND hlc > :checkpoint"
        },
        None => "#p = :main",
    };
    let names: Vec<(String, String)> = vec![("#p".to_owned(), "_p".to_owned())];
    PullRequest { key_condition, names, values, ascending: true }
}

/// The records of a page of items, in their order. Items that are no records
/// are passed over.
pub open spec fn page_records(items: Seq<Vec<(String, Attribute)>>) -> Seq<RemoteView>
    decreases items.len(),
{
    if items.len() == 0 {
        Seq::empty()
    } else {
        let front = page_records(items.drop_last());
        match record_of_item(item_view(items.last()@)) {
            Some(r) => front.push(r),
            None => front,
        }
    }
}

/// Adds the records of a page to those of the pages before it.
pub fn add_page(records: &mut Vec<RemoteRecord>, items: &Vec<Vec<(String, Attribute)>>)
    ensures
        remotes_view(final(records)@) == remotes_view(old(records)@) + page_records(items@),
{
    let ghost before = remotes_view(records@);
    let mut i: usize = 0;
    assert(before =~= before + page_records(items@.take(0)));
    while i < items.len()
        invariant
            i <= items@.len(),
            remotes_view(records@) == before + page_records(items@.take(i as int)),
        decreases items@.len() - i,
    {
        let ghost here = remotes_view(records@);
        let ghost done = page_records(items@.take(i as int));
        assert(items@.take(i + 1).drop_last() =~= items@.take(i as int));
        assert(items@.take(i + 1).last() == items@[i as int]);
        if let Some(r) = remote_record_from_item(&items[i]) {
            let ghost v = r@;
            records.push(r);
            assert(remotes_view(records@) =~= here.push(v));
            assert(here.push(v) =~= before + done.push(v));
        }
        i = i + 1;
    }
    assert(items@.take(i as int) =~= items@);
}

// ── The table ───────────────────────────────────────────────────────────────

/// Which part of a key an attribute is.
#[derive(Debug, Clone, Copy, PartialEq, Eq, Structural)]
pub enum KeyPart {
    Hash,
    Range,
}

/// Which attributes of a record an index carries.
#[derive(Debug, Clone, Copy, PartialEq, Eq, Structural)]
pub enum IndexProjection {
    /// All of them, so that a pull needs nothing but the index.
    All,
    /// Those of the keys.
    KeysOnly,
}

/// How a table is paid for.
#[derive(Debug, Clone, Copy, PartialEq, Eq, Structural)]
pub enum TableBilling {
    /// By what is used.
    PayPerRequest,
    /// By what is set aside.
    Provisioned,
}

/// A table: its text attributes, its key, how it is paid for, and an index with
/// a key of its own.
pub struct TableSpec {
    pub attributes: Vec<&'static str>,
    pub key: Vec<(&'static str, KeyPart)>,
    pub billing: TableBilling,
    pub index_name: &'static str,
    pub index_key: Vec<(&'static str, KeyPart)>,
    pub index_projection: IndexProjection,
}

/// The table of the records: found by id and collection, paid for by request,
/// and indexed by clock reading with all that a record has.
pub fn table_spec() -> (r: TableSpec)
    ensures
        r.attributes@ == seq!["record_id", "collection", "_p", "hlc"],
        r.key@ == seq![("record_id", KeyPart::Hash), ("collection", KeyPart::Range)],
        r.billing == TableBilling::PayPerRequest,
        r.index_name == SYNC_INDEX,
        r.index_key@ == seq![("_p", KeyPart::Hash), ("hlc", KeyPart::Range)],
        r.index_projection == IndexProjection::All,
{
    let attributes: Vec<&'static str> = vec!["record_id", "collection", "_p", "hlc"];
    let key: Vec<(&'static str, KeyPart)> = vec![
        ("record_id", KeyPart::Hash),
        ("collection", KeyPart::Range),
    ];
    let index_key: Vec<(&'static str, KeyPart)> = vec![
        ("_p", KeyPart::Hash),
        ("hlc", KeyPart::Range),
    ];
    assert(attributes@ =~= seq!["record_id", "collection", "_p", "hlc"]);
    assert(key@ =~= seq![("record_id", KeyPart::Hash), ("collection", KeyPart::Range)]);
    assert(index_key@ =~= seq![("_p", KeyPart::Hash), ("hlc", KeyPart::Range)]);
    TableSpec {
        attributes,
        key,
        billing: TableBilling::PayPerRequest,
        index_name: SYNC_INDEX,
        index_key,
        index_projection: IndexProjection::All,
    }
}

/// Every attribute of the table's key and of its index's key is among the
/// attributes that the table declares, and nothing else is.
pub open spec fn declares_its_keys(t: TableSpec) -> bool {
    &&& forall|i: int| 0 <= i < t.key@.len() ==> t.attributes@.contains((#[trigger] t.key@[i]).0)
    &&& forall|i: int|
        0 <= i < t.index_key@.len() ==> t.attributes@.contains((#[trigger] t.index_key@[i]).0)
    &&& t.attributes@.len() == t.key@.len() + t.index_key@.len()
}

/// The table declares exactly the attributes of its keys.
pub proof fn law_table_declares_its_keys(t: TableSpec)
    requires
        t.attributes@ == seq!["record_id", "collection", "_p", "hlc"],
        t.key@ == seq![("record_id", KeyPart::Hash), ("collection", KeyPart::Range)],
        t.index_key@ == seq![("_p", KeyPart::Hash), ("hlc", KeyPart::Range)],
    ensures
        declares_its_keys(t),
{
    assert(t.attributes@[0] == "record_id" && t.attributes@[1] == "collection");
    assert(t.attributes@[2] == "_p" && t.attributes@[3] == "hlc");
    assert forall|i: int| 0 <= i < t.key@.len() implies t.attributes@.contains(
        (#[trigger] t.key@[i]).0,
    ) by {
        assert(t.attributes@[i] == t.key@[i].0);
    }
    assert forall|i: int| 0 <= i < t.index_key@.len() implies t.attributes@.contains(
        (#[trigger] t.index_key@[i]).0,
    ) by {
        assert(t.attributes@[i + 2] == t.index_key@[i].0);
    }
}

/// Whether the table is to be created, going by the text of the failure to
/// describe it.
pub open spec fn is_table_missing(failure: Option<Seq<char>>) -> Result<bool, BackendErrorView> {
    match failure {
        None => Ok(false),
        Some(text) => if contains_text(text, "ResourceNotFoundException"@) {
            Ok(true)
        } else {
            Err(BackendErrorView::Config("describe_table: "@ + text))
        },
    }
}

/// Whether the table is to be created, going by the answer to a description of
/// it: only where it is known not to exist. Any other failure is one.
pub fn needs_table(failure: Option<String>) -> (r: Result<bool, BackendError>)
    ensures
        match is_table_missing(crate::db::row::opt_text(failure)) {
            Ok(missing) => r == Ok::<bool, BackendError>(missing),
            Err(e) => r is Err && r->Err_0@ == e,
        },
{
    match failure {
        None => Ok(false),
        Some(text) => {
            if text_contains(text.as_str(), "ResourceNotFoundException") {
                Ok(true)
            } else {
                Err(BackendError::Config("describe_table: ".to_owned().concat(text.as_str())))
            }
        },
    }
}

/// The error on a table that could not be created.
pub fn create_failed(text: &str) -> (r: BackendError)
    ensures
        r@ == BackendErrorView::Config("create_table: "@ + text@),
{
    BackendError::Config("create_table: ".to_owned().concat(text))
}

} // verus!
