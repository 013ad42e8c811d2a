use squirreld::backend::dynamodb::{self, Attribute, IndexProjection, KeyPart, TableBilling};
use squirreld::backend::in_memory::InMemoryStore;
use squirreld::backend::in_memory_blobs::InMemoryBlobStore;
use squirreld::backend::s3;
use squirreld::backend::{BackendError, OutboxPushEntry, PushResult, UploadedPart};
use squirreld::keyed::Keyed;

fn change(id: &str, collection: &str, hlc: &str, seq: i64) -> OutboxPushEntry {
    OutboxPushEntry {
        seq,
        record_id: id.into(),
        collection: collection.into(),
        operation: "upsert".into(),
        hlc: hlc.into(),
        data: Some(hlc.as_bytes().to_vec()),
        dek_encrypted: None,
        schema_version: 3,
        format_version: 0,
        retries: 0,
    }
}

fn accepted(r: PushResult) -> bool {
    match r {
        PushResult::Accepted { .. } => true,
        PushResult::ConflictAt { .. } => false,
        PushResult::TransientError(e) => panic!("{e}"),
    }
}

// ── Records in memory ───────────────────────────────────────────────────────

#[test]
fn the_later_write_wins() {
    let mut store = InMemoryStore::new();
    assert!(accepted(store.push_one(&change("a", "c", "2", 1))));
    assert!(!accepted(store.push_one(&change("a", "c", "1", 2))));
    assert!(!accepted(store.push_one(&change("a", "c", "2", 3))));
    assert!(accepted(store.push_one(&change("a", "c", "3", 4))));
    assert!(accepted(store.push_one(&change("a", "d", "1", 5))));
    let all = store.pull_since(None);
    assert_eq!(all.len(), 2);
    assert_eq!((all[0].collection.as_str(), all[0].hlc.as_str()), ("d", "1"));
    assert_eq!((all[1].collection.as_str(), all[1].hlc.as_str()), ("c", "3"));
    match store.push_one(&change("a", "c", "0", 9)) {
        PushResult::ConflictAt { record_id, seq } => assert_eq!((record_id.as_str(), seq), ("a", 9)),
        other => panic!("{other:?}"),
    }
}

#[test]
fn order_of_pushes_does_not_matter() {
    let changes =
        [change("a", "c", "1", 1), change("a", "c", "3", 2), change("a", "c", "2", 3)];
    for order in [[0, 1, 2], [0, 2, 1], [1, 0, 2], [1, 2, 0], [2, 0, 1], [2, 1, 0]] {
        let mut store = InMemoryStore::default();
        for i in order {
            store.push_one(&changes[i]);
        }
        let all = store.pull_since(None);
        assert_eq!(all.len(), 1);
        assert_eq!(all[0].hlc, "3");
    }
}

#[test]
fn pulls_are_sorted_and_start_after_the_checkpoint() {
    let mut store = InMemoryStore::new();
    for hlc in ["5", "1", "4", "2", "3"] {
        store.push_one(&change(hlc, "c", hlc, 0));
    }
    let hlcs = |cp: Option<&str>| -> Vec<String> {
        store.pull_since(cp).into_iter().map(|r| r.hlc).collect()
    };
    assert_eq!(hlcs(None), ["1", "2", "3", "4", "5"]);
    assert_eq!(hlcs(Some("3")), ["4", "5"]);
    assert_eq!(hlcs(Some("25")), ["3", "4", "5"]);
    assert!(hlcs(Some("5")).is_empty());
}

#[test]
fn deletes_are_stored_as_tombstones() {
    let mut store = InMemoryStore::new();
    let mut e = change("a", "c", "1", 1);
    e.operation = "delete".into();
    e.data = None;
    store.push_one(&e);
    let all = store.pull_since(None);
    assert!(all[0].deleted && all[0].data.is_none());
    assert_eq!(all[0].schema_version, 3);
}

// ── Blobs in memory ─────────────────────────────────────────────────────────

#[test]
fn blobs_are_stored_and_removed() {
    let mut store = InMemoryBlobStore::new();
    store.put_object("k", vec![1, 2]);
    store.put_object("k", vec![3]);
    assert_eq!(store.get_object("k").unwrap(), vec![3]);
    store.delete_object("k");
    store.delete_object("k");
    assert_eq!(store.get_object("k").unwrap_err().message(), "transient: no such object: k");
}

#[test]
fn parts_are_put_together_in_the_order_of_the_list() {
    let mut store = InMemoryBlobStore::new();
    let id = store.create_multipart_upload("k");
    let two = store.upload_part(&id, 2, vec![20]).unwrap();
    let one = store.upload_part(&id, 1, vec![10, 11]).unwrap();
    assert_ne!(one, two);
    let listed: Vec<(i32, String)> =
        store.list_parts(&id).into_iter().map(|p| (p.part_number, p.etag)).collect();
    assert_eq!(listed, vec![(2, two.clone()), (1, one.clone())]);
    let part = |n: i32, etag: &str| UploadedPart { part_number: n, etag: etag.into() };
    let missing = store.complete_multipart_upload(&id, &vec![part(1, &one), part(3, "x")]);
    assert_eq!(missing.unwrap_err().message(), format!("transient: InvalidPart: {id}"));
    store.complete_multipart_upload(&id, &vec![part(1, &one), part(2, &two)]).unwrap();
    assert_eq!(store.get_object("k").unwrap(), vec![10, 11, 20]);
    assert!(store.list_parts(&id).is_empty(), "a complete upload is gone");
    assert!(store.upload_part(&id, 3, vec![]).is_err());
    let gone = store.complete_multipart_upload(&id, &vec![]);
    assert_eq!(gone.unwrap_err().message(), format!("transient: NoSuchUpload: {id}"));
    assert_ne!(store.create_multipart_upload("k"), id);
}

#[test]
fn keyed_lists_hold_one_value_for_each_name() {
    let mut list: Keyed<i32> = Keyed::new();
    list.put("a".into(), 1);
    list.put("b".into(), 2);
    list.put("a".into(), 3);
    assert_eq!((list.get("a"), list.get("b"), list.get("c")), (Some(&3), Some(&2), None));
    assert_eq!(list.take("a"), Some(3));
    assert_eq!(list.take("a"), None);
    assert_eq!(list.get("b"), Some(&2));
}

// ── DynamoDB ────────────────────────────────────────────────────────────────

fn attribute<'a>(item: &'a Vec<(String, Attribute)>, name: &str) -> Option<&'a Attribute> {
    item.iter().find(|(n, _)| n == name).map(|(_, a)| a)
}

#[test]
fn items_hold_the_change() {
    let item = dynamodb::item_from_entry(&change("id", "papers", "h", 1));
    assert_eq!(item.len(), 9);
    assert!(matches!(attribute(&item, "record_id"), Some(Attribute::S(s)) if s == "id"));
    assert!(matches!(attribute(&item, "schema_version"), Some(Attribute::N(n)) if n == "3"));
    assert!(matches!(attribute(&item, "deleted"), Some(Attribute::N(n)) if n == "0"));
    assert!(matches!(attribute(&item, "_p"), Some(Attribute::S(s)) if s == "main"));
    assert!(matches!(attribute(&item, "data"), Some(Attribute::B(b)) if b == b"h"));
    assert!(attribute(&item, "dek_encrypted").is_none());
}

#[test]
fn items_read_back_as_records() {
    let mut e = change("id", "papers", "h", 1);
    e.operation = "delete".into();
    e.schema_version = u32::MAX;
    e.format_version = 255;
    e.data = None;
    e.dek_encrypted = Some(vec![1, 2]);
    let r = dynamodb::remote_record_from_item(&dynamodb::item_from_entry(&e)).unwrap();
    assert_eq!((r.record_id.as_str(), r.collection.as_str(), r.hlc.as_str()), ("id", "papers", "h"));
    assert!(r.deleted && r.data.is_none());
    assert_eq!(r.dek_encrypted.as_deref(), Some(&[1u8, 2][..]));
    assert_eq!((r.schema_version, r.format_version), (u32::MAX, 255));
}

#[test]
fn odd_items_are_read_leniently() {
    let base = || {
        vec![
            ("record_id".to_string(), Attribute::S("r".into())),
            ("collection".to_string(), Attribute::S("c".into())),
            ("hlc".to_string(), Attribute::S("h".into())),
        ]
    };
    let r = dynamodb::remote_record_from_item(&base()).unwrap();
    assert!(!r.deleted && r.data.is_none());
    assert_eq!((r.schema_version, r.format_version), (0, 0));
    let number = |name: &str, n: &str| {
        let mut item = base();
        item.push((name.to_string(), Attribute::N(n.into())));
        dynamodb::remote_record_from_item(&item).unwrap()
    };
    assert!(number("deleted", "2").deleted);
    assert!(!number("deleted", "256").deleted);
    assert_eq!(number("format_version", "+007").format_version, 7);
    assert_eq!(number("schema_version", "4294967296").schema_version, 0);
    assert_eq!(number("schema_version", "-1").schema_version, 0);
    assert_eq!(number("schema_version", "").schema_version, 0);
    for missing in 0..3 {
        let mut item = base();
        item.remove(missing);
        assert!(dynamodb::remote_record_from_item(&item).is_none());
    }
    let mut wrong = base();
    wrong[2].1 = Attribute::Other;
    assert!(dynamodb::remote_record_from_item(&wrong).is_none());
}

#[test]
fn answers_to_a_push_are_told_apart() {
    let e = change("id", "papers", "h", 7);
    assert!(matches!(dynamodb::push_result(&e, None),
        PushResult::Accepted { pushed_seqs } if pushed_seqs == vec![7]));
    let conflict = "ServiceError(ConditionalCheckFailedException { .. })".to_string();
    assert!(matches!(dynamodb::push_result(&e, Some(conflict)),
        PushResult::ConflictAt { record_id, seq: 7 } if record_id == "id"));
    assert!(matches!(dynamodb::push_result(&e, Some("timeout".into())),
        PushResult::TransientError(t) if t == "timeout"));
    assert!(matches!(&dynamodb::push_values(&e)[0], (n, Attribute::S(v)) if n == ":local_hlc" && v == "h"));
    assert_eq!(dynamodb::PUSH_CONDITION, "attribute_not_exists(hlc) OR hlc < :local_hlc");
}

#[test]
fn pulls_ask_for_what_is_after_the_checkpoint() {
    let all = dynamodb::pull_request(None);
    assert_eq!(all.key_condition, "#p = :main");
    assert_eq!(all.values.len(), 1);
    assert_eq!(all.names, vec![("#p".to_string(), "_p".to_string())]);
    assert!(all.ascending);
    let some = dynamodb::pull_request(Some("cp"));
    assert_eq!(some.key_condition, "#p = :main AND hlc > :checkpoint");
    assert!(matches!(&some.values[1], (n, Attribute::S(v)) if n == ":checkpoint" && v == "cp"));
}

#[test]
fn pages_are_joined_without_what_is_no_record() {
    let mut records = Vec::new();
    let item = |id: &str| dynamodb::item_from_entry(&change(id, "c", "h", 1));
    dynamodb::add_page(&mut records, &vec![item("a"), vec![], item("b")]);
    dynamodb::add_page(&mut records, &vec![item("c")]);
    let ids: Vec<&str> = records.iter().map(|r| r.record_id.as_str()).collect();
    assert_eq!(ids, ["a", "b", "c"]);
}

#[test]
fn the_table_is_made_only_where_it_is_missing() {
    assert!(!dynamodb::needs_table(None).unwrap());
    assert!(dynamodb::needs_table(Some("..ResourceNotFoundException..".into())).unwrap());
    let e = dynamodb::needs_table(Some("AccessDenied".into())).unwrap_err();
    assert_eq!(e.message(), "configuration error: describe_table: AccessDenied");
    assert_eq!(
        dynamodb::create_failed("limit").message(),
        "configuration error: create_table: limit"
    );
    let t = dynamodb::table_spec();
    assert_eq!(t.attributes, ["record_id", "collection", "_p", "hlc"]);
    assert_eq!(t.key, [("record_id", KeyPart::Hash), ("collection", KeyPart::Range)]);
    assert_eq!(t.index_key, [("_p", KeyPart::Hash), ("hlc", KeyPart::Range)]);
    assert_eq!(t.index_name, "sync-index");
    assert_eq!(t.index_projection, IndexProjection::All);
    assert_eq!(t.billing, TableBilling::PayPerRequest);
}

// ── S3 ──────────────────────────────────────────────────────────────────────

#[test]
fn the_default_region_is_not_named() {
    assert_eq!(s3::location_constraint("us-east-1"), None);
    assert_eq!(s3::location_constraint("eu-west-1").as_deref(), Some("eu-west-1"));
}

#[test]
fn listed_parts_need_a_tag() {
    let raw = vec![
        (Some(2), Some("b".to_string())),
        (Some(3), None),
        (None, Some("z".to_string())),
    ];
    let parts: Vec<(i32, String)> =
        s3::listed_parts(&raw).into_iter().map(|p| (p.part_number, p.etag)).collect();
    assert_eq!(parts, vec![(2, "b".to_string()), (0, "z".to_string())]);
}

#[test]
fn an_expired_upload_has_no_parts() {
    assert!(s3::list_failed("code: NoSuchUpload".into()).unwrap().is_empty());
    assert!(matches!(s3::list_failed("down".into()), Err(BackendError::Transient(t)) if t == "down"));
    assert_eq!(s3::created_upload(Some("u".into())).unwrap(), "u");
    assert_eq!(
        s3::created_upload(None).unwrap_err().message(),
        "transient: S3 returned no upload_id"
    );
    assert_eq!(s3::sent_part(Some("e".into())).unwrap(), "e");
    assert_eq!(
        s3::sent_part(None).unwrap_err().message(),
        "transient: S3 returned no ETag for part"
    );
}
