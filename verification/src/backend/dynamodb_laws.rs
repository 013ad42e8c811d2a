//! What holds of remote stores: a change that is pushed to DynamoDB is stored as
//! the store in memory stores it, and a pull loses nothing of what is there.

use vstd::prelude::*;
use vstd::string::*;

use crate::backend::dynamodb::{
    attribute_of, is_table_missing, item_of, item_view, law_item_round_trip, page_records,
    pull_condition, pull_values, push_bound, push_outcome, record_of_item, text_of, Attribute,
    AttributeView, PARTITION, PUSH_CONDITION,
};
use crate::backend::in_memory::{
    accepts, is_after, is_pull, key_of, pushed, RecordKey, RemoteRecords,
};
use crate::backend::s3::{bound_region, is_gone, tagged_parts};
use crate::backend::wire::{remote_of, EntryView, PartView, PushView};
use crate::text::{contains_text, parse_decimal, text_lt};

verus! {

/// The attributes of an item, by name.
pub type Item = Seq<(Seq<char>, AttributeView)>;

/// A remote store that accepts a change holds all of it: the record, its clock
/// reading, its payload and its versions, and as a tombstone exactly if it is a
/// delete.
pub proof fn law_remote_holds_the_change(e: EntryView)
    ensures
        remote_of(e).record_id == e.record_id,
        remote_of(e).collection == e.collection,
        remote_of(e).hlc == e.hlc,
        remote_of(e).data == e.data,
        remote_of(e).dek_encrypted == e.dek_encrypted,
        remote_of(e).deleted <==> e.operation == "delete"@,
        remote_of(e).schema_version == e.schema_version,
        remote_of(e).format_version == e.format_version,
{
}

// ── Pages ───────────────────────────────────────────────────────────────────

/// Pages lose nothing: the records of a page of stored changes, deletes among
/// them, are those changes, as many and in their order.
pub proof fn law_page_loses_nothing(es: Seq<EntryView>, items: Seq<Vec<(String, Attribute)>>)
    requires
        items.len() == es.len(),
        forall|i: int| 0 <= i < es.len() ==> item_view((#[trigger] items[i])@) == item_of(es[i]),
    ensures
        page_records(items) == Seq::new(es.len(), |i: int| remote_of(es[i])),
    decreases es.len(),
{
    let all = Seq::new(es.len(), |i: int| remote_of(es[i]));
    if es.len() > 0 {
        let (front, rest) = (es.drop_last(), items.drop_last());
        assert forall|i: int| 0 <= i < front.len() implies item_view((#[trigger] rest[i])@)
            == item_of(front[i]) by {
            assert(rest[i] == items[i]);
        }
        law_page_loses_nothing(front, rest);
        law_item_round_trip(es.last());
        assert(item_view(items[items.len() - 1]@) == item_of(es[es.len() - 1]));
        assert(page_records(items) =~= all);
    } else {
        assert(page_records(items) =~= all);
    }
}

/// The records of pages that follow each other are those of one page of all
/// their items.
pub proof fn law_pages_follow_each_other(
    a: Seq<Vec<(String, Attribute)>>,
    b: Seq<Vec<(String, Attribute)>>,
)
    ensures
        page_records(a + b) == page_records(a) + page_records(b),
    decreases b.len(),
{
    if b.len() == 0 {
        assert(a + b =~= a);
        assert(page_records(a) + page_records(b) =~= page_records(a));
    } else {
        assert((a + b).drop_last() =~= a + b.drop_last());
        law_pages_follow_each_other(a, b.drop_last());
        assert((a + b).last() == b.last());
        assert(page_records(a + b) =~= page_records(a) + page_records(b));
    }
}

/// An item is a record exactly if it has an id, a collection and a clock
/// reading. What else it lacks is left out, and counts as zero.
pub proof fn law_every_item_with_a_key_is_a_record(item: Item)
    ensures
        record_of_item(item) is Some <==> {
            &&& attribute_of(item, "record_id"@) matches Some(AttributeView::S(_))
            &&& attribute_of(item, "collection"@) matches Some(AttributeView::S(_))
            &&& attribute_of(item, "hlc"@) matches Some(AttributeView::S(_))
        },
        record_of_item(item) matches Some(r) ==> {
            &&& attribute_of(item, "record_id"@) == Some(AttributeView::S(r.record_id))
            &&& attribute_of(item, "collection"@) == Some(AttributeView::S(r.collection))
            &&& attribute_of(item, "hlc"@) == Some(AttributeView::S(r.hlc))
            &&& attribute_of(item, "data"@) matches Some(AttributeView::B(d)) ==> r.data == Some(d)
            &&& attribute_of(item, "data"@) is None ==> r.data is None
            &&& attribute_of(item, "deleted"@) is None ==> !r.deleted
            &&& attribute_of(item, "schema_version"@) is None ==> r.schema_version == 0
            &&& attribute_of(item, "format_version"@) is None ==> r.format_version == 0
        },
{
}

/// Every attribute of an item says what it says of the record: one that is not of
/// the right type, or no number in range, is left out or counts as zero, and any
/// number but zero marks a tombstone.
pub proof fn law_attributes_are_read_by_name(item: Item, name: Seq<char>, n: Seq<char>)
    requires
        record_of_item(item) is Some,
        attribute_of(item, name) == Some(AttributeView::N(n)),
    ensures
        ({
            let r = record_of_item(item)->0;
            &&& name == "deleted"@ ==> (r.deleted <==> parse_decimal(n, 255) is Some
                && parse_decimal(n, 255) != Some(0nat))
            &&& name == "schema_version"@ ==> match parse_decimal(n, 0xffff_ffff) {
                Some(v) => r.schema_version == v,
                None => r.schema_version == 0,
            }
            &&& name == "format_version"@ ==> match parse_decimal(n, 255) {
                Some(v) => r.format_version == v,
                None => r.format_version == 0,
            }
            &&& name == "data"@ ==> r.data is None
            &&& name == "dek_encrypted"@ ==> r.dek_encrypted is None
        }),
{
}

/// An attribute is found by its name wherever it stands in an item in which no
/// name stands twice, and a name that is not there is not found.
pub proof fn law_attributes_are_found(item: Item, name: Seq<char>, i: int)
    requires
        forall|a: int, b: int|
            0 <= a < b < item.len() ==> (#[trigger] item[a]).0 != (#[trigger] item[b]).0,
    ensures
        0 <= i < item.len() && item[i].0 == name ==> attribute_of(item, name) == Some(item[i].1),
        (forall|k: int| 0 <= k < item.len() ==> (#[trigger] item[k]).0 != name) ==> attribute_of(
            item,
            name,
        ) is None,
    decreases item.len(),
{
    if item.len() > 0 {
        let front = item.drop_last();
        assert(forall|k: int| 0 <= k < front.len() ==> #[trigger] front[k] == item[k]);
        law_attributes_are_found(front, name, i);
        assert(item.last() == item[item.len() - 1]);
    }
}

// ── Push ────────────────────────────────────────────────────────────────────

/// The items of a table, by key.
pub type Items = Map<RecordKey, Item>;

/// Whether every item of a table is the record of its key.
pub open spec fn is_sound(items: Items) -> bool {
    forall|key: RecordKey| #[trigger]
        items.contains_key(key) ==> record_of_item(items[key]) is Some && key_of(
            record_of_item(items[key])->0,
        ) == key
}

/// The records of a table.
pub open spec fn records_of(items: Items) -> RemoteRecords {
    Map::new(
        |key: RecordKey| items.contains_key(key),
        |key: RecordKey| record_of_item(items[key])->0,
    )
}

/// Whether the condition of a put holds of the item that is there.
pub open spec fn condition_holds(
    condition: Seq<char>,
    values: Item,
    there: Option<Item>,
) -> bool {
    condition == "attribute_not_exists(hlc) OR hlc < :local_hlc"@ && match there {
        None => true,
        Some(item) => match text_of(attribute_of(item, "hlc"@)) {
            None => true,
            Some(hlc) => text_of(attribute_of(values, ":local_hlc"@)) matches Some(bound)
                && text_lt(hlc, bound),
        },
    }
}

/// A push is let through by its condition exactly where the store in memory
/// would accept it, and then the table holds the same records as that store.
pub proof fn law_push_stores_as_in_memory(items: Items, e: EntryView)
    requires
        is_sound(items),
    ensures
        ({
            let key = (e.record_id, e.collection);
            let there = if items.contains_key(key) {
                Some(items[key])
            } else {
                None
            };
            let holds = condition_holds(PUSH_CONDITION@, push_bound(e), there);
            let after = if holds {
                items.insert(key, item_of(e))
            } else {
                items
            };
            &&& holds <==> accepts(records_of(items), e)
            &&& is_sound(after)
            &&& records_of(after) == pushed(records_of(items), e)
        }),
{
    let key = (e.record_id, e.collection);
    law_item_round_trip(e);
    reveal_with_fuel(attribute_of, 2);
    assert(push_bound(e).last().0 == ":local_hlc"@);
    let after = items.insert(key, item_of(e));
    assert(records_of(after) =~= records_of(items).insert(key, remote_of(e)));
    if items.contains_key(key) {
        let r = record_of_item(items[key])->0;
        assert(text_of(attribute_of(items[key], "hlc"@)) == Some(r.hlc));
    }
}

/// What the answer to a push means: it was accepted exactly if nothing failed,
/// it lost exactly if the condition failed, and every other failure may pass. It
/// always speaks of the change that was pushed.
pub proof fn law_answer_speaks_of_the_change(e: EntryView, failure: Option<Seq<char>>)
    ensures
        match push_outcome(e, failure) {
            PushView::Accepted { pushed_seqs } => failure is None && pushed_seqs == seq![e.seq],
            PushView::ConflictAt { record_id, seq } => {
                &&& failure is Some
                &&& contains_text(failure->0, "ConditionalCheckFailedException"@)
                &&& record_id == e.record_id
                &&& seq == e.seq
            },
            PushView::TransientError(text) => {
                &&& failure == Some(text)
                &&& !contains_text(text, "ConditionalCheckFailedException"@)
            },
        },
{
}

// ── Pull ────────────────────────────────────────────────────────────────────

/// Whether the condition of a pull holds of an item.
pub open spec fn is_queried(condition: Seq<char>, values: Item, item: Item) -> bool {
    let partition = attribute_of(item, "_p"@) == attribute_of(values, ":main"@);
    ||| condition == "#p = :main"@ && partition
    ||| condition == "#p = :main AND hlc > :checkpoint"@ && partition && match (
        text_of(attribute_of(item, "hlc"@)),
        text_of(attribute_of(values, ":checkpoint"@)),
    ) {
        (Some(hlc), Some(cp)) => text_lt(cp, hlc),
        _ => false,
    }
}

/// Whether a list holds the items of which the condition of a pull holds: each
/// of them once, nothing else, in the order of their clock readings.
pub open spec fn is_query(
    items: Items,
    condition: Seq<char>,
    values: Item,
    keys: Seq<RecordKey>,
) -> bool {
    &&& keys.no_duplicates()
    &&& forall|key: RecordKey| #[trigger]
        keys.contains(key) <==> items.contains_key(key) && is_queried(
            condition,
            values,
            items[key],
        )
    &&& forall|i: int, j: int|
        0 <= i < j < keys.len() ==> !text_lt(
            text_of(attribute_of(items[#[trigger] keys[j]], "hlc"@))->0,
            text_of(attribute_of(items[#[trigger] keys[i]], "hlc"@))->0,
        )
}

/// Whether every item of a table is a change that was pushed.
pub open spec fn holds_changes(items: Items) -> bool {
    forall|key: RecordKey| #[trigger]
        items.contains_key(key) ==> exists|e: EntryView|
            items[key] == #[trigger] item_of(e) && key == (e.record_id, e.collection)
}

/// A pull reads what the store in memory would give: all changes after the
/// checkpoint, each once, nothing else, deletes among them, in the order of
/// their clock readings.
pub proof fn law_pull_reads_as_in_memory(
    items: Items,
    checkpoint: Option<Seq<char>>,
    keys: Seq<RecordKey>,
    pages: Seq<Vec<(String, Attribute)>>,
)
    requires
        holds_changes(items),
        is_query(items, pull_condition(checkpoint), pull_values(checkpoint), keys),
        pages.len() == keys.len(),
        forall|i: int|
            0 <= i < pages.len() ==> item_view((#[trigger] pages[i])@) == items[keys[i]],
    ensures
        is_pull(records_of(items), checkpoint, page_records(pages)),
{
    let records = records_of(items);
    let es = Seq::new(
        keys.len(),
        |i: int|
            choose|e: EntryView|
                items[keys[i]] == #[trigger] item_of(e) && keys[i] == (e.record_id, e.collection),
    );
    assert forall|i: int| 0 <= i < keys.len() implies {
        &&& items.contains_key(#[trigger] keys[i])
        &&& items[keys[i]] == item_of(es[i])
        &&& keys[i] == (es[i].record_id, es[i].collection)
    } by {
        assert(keys.contains(keys[i]));
        assert(items.contains_key(keys[i]));
        assert(exists|e: EntryView|
            items[keys[i]] == #[trigger] item_of(e) && keys[i] == (e.record_id, e.collection));
    }
    assert forall|i: int| 0 <= i < es.len() implies item_view((#[trigger] pages[i])@) == item_of(
        es[i],
    ) by {
        assert(items[keys[i]] == item_of(es[i]));
    }
    law_page_loses_nothing(es, pages);
    let list = page_records(pages);
    assert forall|i: int| 0 <= i < keys.len() implies {
        &&& (#[trigger] list[i]) == remote_of(es[i])
        &&& key_of(list[i]) == keys[i]
        &&& records.contains_pair(keys[i], list[i])
        &&& text_of(attribute_of(items[keys[i]], "hlc"@)) == Some(list[i].hlc)
    } by {
        law_item_round_trip(es[i]);
        assert(items.contains_key(keys[i]));
    }
    assert forall|key: RecordKey| items.contains_key(key) implies (#[trigger] is_queried(
        pull_condition(checkpoint),
        pull_values(checkpoint),
        items[key],
    ) <==> is_after(records[key], checkpoint)) by {
        let e = choose|e: EntryView|
            items[key] == #[trigger] item_of(e) && key == (e.record_id, e.collection);
        law_item_round_trip(e);
        lemma_pull_texts(checkpoint, e);
    }
    assert forall|i: int| 0 <= i < list.len() implies is_after(#[trigger] list[i], checkpoint) by {
        assert(keys.contains(keys[i]));
        assert(is_queried(
            pull_condition(checkpoint),
            pull_values(checkpoint),
            items[keys[i]],
        ));
        assert(records[keys[i]] == list[i]);
    }
    assert forall|key: RecordKey| #[trigger]
        records.contains_key(key) && is_after(records[key], checkpoint) implies exists|i: int|
        0 <= i < list.len() && #[trigger] list[i] == records[key] by {
        assert(is_queried(pull_condition(checkpoint), pull_values(checkpoint), items[key]));
        assert(keys.contains(key));
        let i = choose|i: int| 0 <= i < keys.len() && keys[i] == key;
        assert(records.contains_pair(keys[i], list[i]));
    }
    assert forall|i: int, j: int| 0 <= i < j < list.len() implies key_of(#[trigger] list[i])
        != key_of(#[trigger] list[j]) by {
        assert(keys[i] != keys[j]);
    }
    assert forall|i: int, j: int| 0 <= i < j < list.len() implies !text_lt(
        (#[trigger] list[j]).hlc,
        (#[trigger] list[i]).hlc,
    ) by {
        assert(!text_lt(
            text_of(attribute_of(items[keys[j]], "hlc"@))->0,
            text_of(attribute_of(items[keys[i]], "hlc"@))->0,
        ));
    }
}

proof fn lemma_pull_texts(checkpoint: Option<Seq<char>>, e: EntryView)
    ensures
        pull_condition(None) != pull_condition(Some(e.hlc)),
        attribute_of(item_of(e), "_p"@) == Some(AttributeView::S(PARTITION@)),
        attribute_of(pull_values(checkpoint), ":main"@) == Some(AttributeView::S(PARTITION@)),
        checkpoint matches Some(cp) ==> attribute_of(pull_values(checkpoint), ":checkpoint"@)
            == Some(AttributeView::S(cp)),
{
    reveal_strlit("#p = :main");
    reveal_strlit("#p = :main AND hlc > :checkpoint");
    reveal_strlit(":main");
    reveal_strlit(":checkpoint");
    reveal_strlit("_p");
    reveal_strlit("data");
    reveal_strlit("dek_encrypted");
    assert(pull_condition(None).len() != pull_condition(Some(e.hlc)).len());
    assert(":main"@.len() != ":checkpoint"@.len());
    let base = seq![(":main"@, AttributeView::S(PARTITION@))];
    reveal_with_fuel(attribute_of, 4);
    assert(base.drop_last() =~= Seq::empty());
    if let Some(cp) = checkpoint {
        assert(pull_values(checkpoint).drop_last() =~= base);
        assert(pull_values(checkpoint).last().0 == ":checkpoint"@);
    }
    assert("_p"@.len() == 2 && "data"@.len() == 4 && "dek_encrypted"@.len() == 13);
    let item = item_of(e);
    let plain = item_of(EntryView { data: None, dek_encrypted: None, ..e });
    let with_data = item_of(EntryView { dek_encrypted: None, ..e });
    assert(plain.last() == ("_p"@, AttributeView::S(PARTITION@)));
    assert(attribute_of(plain, "_p"@) == Some(AttributeView::S(PARTITION@)));
    if e.data is Some {
        assert(with_data.drop_last() =~= plain);
    } else {
        assert(with_data =~= plain);
    }
    if e.dek_encrypted is Some {
        assert(item.drop_last() =~= with_data);
    } else {
        assert(item =~= with_data);
    }
}

// ── Tables, buckets and parts ───────────────────────────────────────────────

/// A table is created only where it is known to be missing. Every other failure
/// to find it is told, with its text.
pub proof fn law_table_is_created_only_where_missing(failure: Option<Seq<char>>)
    ensures
        is_table_missing(failure) == Ok::<bool, crate::backend::wire::BackendErrorView>(true) <==> {
            &&& failure is Some
            &&& contains_text(failure->0, "ResourceNotFoundException"@)
        },
        is_table_missing(failure) == Ok::<bool, crate::backend::wire::BackendErrorView>(false)
            <==> failure is None,
        is_table_missing(failure) matches Err(e) ==> e
            == crate::backend::wire::BackendErrorView::Config("describe_table: "@ + failure->0),
{
}

/// A bucket is bound to its region, but for the one that must not be named.
pub proof fn law_bucket_is_bound_to_its_region(region: Seq<char>)
    ensures
        bound_region(region) matches Some(named) ==> named == region,
        bound_region(region) is None <==> region == "us-east-1"@,
{
}

/// Every part of an answer that has a tag is taken, with its number, and in the
/// order of the answer. An answer in two pieces is taken piece by piece.
pub proof fn law_every_tagged_part_is_taken(
    a: Seq<(Option<i32>, Option<String>)>,
    number: Option<i32>,
    tag: Option<String>,
    b: Seq<(Option<i32>, Option<String>)>,
)
    ensures
        tagged_parts(a + b) == tagged_parts(a) + tagged_parts(b),
        tagged_parts(seq![(number, tag)]) == (match tag {
            Some(etag) => seq![
                PartView {
                    part_number: if number is Some {
                        number->0
                    } else {
                        0
                    },
                    etag: etag@,
                },
            ],
            None => Seq::empty(),
        }),
    decreases b.len(),
{
    let one = seq![(number, tag)];
    assert(one.drop_last() =~= Seq::empty());
    assert(tagged_parts(one.drop_last()) =~= Seq::empty());
    assert(one.last() == (number, tag));
    if tag is Some {
        assert(tagged_parts(one) =~= seq![tagged_parts(one)[0]]);
    }
    if b.len() == 0 {
        assert(a + b =~= a);
        assert(tagged_parts(a) + tagged_parts(b) =~= tagged_parts(a));
    } else {
        assert((a + b).drop_last() =~= a + b.drop_last());
        law_every_tagged_part_is_taken(a, number, tag, b.drop_last());
        assert((a + b).last() == b.last());
        assert(tagged_parts(a + b) =~= tagged_parts(a) + tagged_parts(b));
    }
}

/// An upload counts as gone exactly where the remote store says that there is
/// none.
pub proof fn law_upload_is_gone_where_said(text: Seq<char>)
    ensures
        is_gone(text) <==> contains_text(text, "NoSuchUpload"@),
{
}

} // verus!
