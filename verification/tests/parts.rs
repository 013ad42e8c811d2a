use squirreld::builder::EngineBuilder;
use squirreld::collection::{
    find_config, CollectionConfig, CollectionEncryption, IndexDef, IndexKind,
};
use squirreld::db::config::KeySource;
use squirreld::error::SquirrelError;
use squirreld::json;
use squirreld::retry;
use squirreld::sync::{self, LoopAction, LoopEvent, PullCycle, SyncLoop};
use squirreld::text;
use squirreld::types::{BlobStatus, ColumnAffinity, ItemEncryption, ListOpts, PutOpts, SortOrder};
use squirreld::{Hlc, SyncStats, Ulid};

// ── Text ────────────────────────────────────────────────────────────────────

#[test]
fn numerals_are_written_and_read() {
    assert_eq!(text::decimal_text(0), "0");
    assert_eq!(text::decimal_text(1234567890), "1234567890");
    assert_eq!(text::decimal_text(u128::MAX), u128::MAX.to_string());
    assert_eq!(text::decimal_int_text(i64::MIN), i64::MIN.to_string());
    assert_eq!(text::decimal_int_text(-7), "-7");
    assert_eq!(text::hex_padded_text(0xabc, 5), "00abc");
    assert_eq!(text::hex_padded_text(0xabcdef, 2), "abcdef");
    assert_eq!(text::parse_decimal_text("4294967295", u32::MAX), Some(u32::MAX));
    assert_eq!(text::parse_decimal_text("4294967296", u32::MAX), None);
    assert_eq!(text::parse_decimal_text("+", 9), None);
    assert_eq!(text::parse_decimal_text("1x", 99), None);
}

#[test]
fn bytes_are_written_as_digit_pairs() {
    assert_eq!(text::hex_encode(&[0, 0x0f, 0xff]), "000fff");
    assert_eq!(text::hex_decode("000FfF"), Ok(vec![0, 0x0f, 0xff]));
    assert_eq!(text::hex_decode("+f"), Ok(vec![0x0f]));
    for bad in ["0", "0g", "é", "ééé", "0 "] {
        assert_eq!(text::hex_decode(bad), Err(()));
    }
    let all: Vec<u8> = (0..=255).collect();
    assert_eq!(text::hex_decode(&text::hex_encode(&all)), Ok(all));
}

#[test]
fn strings_sort_by_their_bytes() {
    let words = ["", "a", "ab", "b", "z", "é", "日", "𝄞"];
    for (i, a) in words.iter().enumerate() {
        for (j, b) in words.iter().enumerate() {
            assert_eq!(text::text_less(a, b), i < j, "{a} {b}");
            assert_eq!(text::text_less(a, b), a < b);
            assert_eq!(text::text_same(a, b), i == j);
        }
    }
}

#[test]
fn texts_are_searched_and_joined() {
    assert!(text::text_contains("abcabd", "abd"));
    assert!(text::text_contains("abc", ""));
    assert!(!text::text_contains("ab", "abc"));
    assert!(!text::text_contains("xyz", "y z"));
    let parts: Vec<String> = ["a", "b", "c"].map(|s| s.to_string()).to_vec();
    assert_eq!(text::join(&parts, ", "), "a, b, c");
    assert_eq!(text::join(&vec![], ", "), "");
}

// ── Ids ─────────────────────────────────────────────────────────────────────

#[test]
fn ids_are_written_in_base_32() {
    let id = Ulid(0x41414141414141414141414141414141);
    assert_eq!(id.to_text(), "21850M2GA1850M2GA1850M2GA1");
    assert_eq!(Ulid::from_text("21850m2ga1850m2ga1850m2ga1"), Some(id));
    assert_eq!(Ulid(u128::MAX).to_text(), "7ZZZZZZZZZZZZZZZZZZZZZZZZZ");
    assert_eq!(Ulid::from_text("7ZZZZZZZZZZZZZZZZZZZZZZZZZ"), Some(Ulid(u128::MAX)));
    assert_eq!(Ulid::from_text("ZZZZZZZZZZZZZZZZZZZZZZZZZZ"), Some(Ulid(u128::MAX)));
    assert_eq!(Ulid::from_text("0123456789ABCDEFGHJKMNPQRS").unwrap().to_text(),
        "0123456789ABCDEFGHJKMNPQRS");
    assert_eq!(Ulid(0).to_text().len(), 26);
    for bad in ["", "21850M2GA1850M2GA1850M2GA", "I1850M2GA1850M2GA1850M2GA1",
        "U1850M2GA1850M2GA1850M2GA1", "é1850M2GA1850M2GA1850M2GA"] {
        assert_eq!(Ulid::from_text(bad), None, "{bad}");
    }
}

#[test]
fn new_ids_differ() {
    let (a, b) = (Ulid::new(), Ulid::new());
    assert_ne!(a, b);
    assert_ne!(a, Ulid(0));
    assert_eq!(Ulid::from_text(&a.to_text()), Some(a));
}

// ── Retries ─────────────────────────────────────────────────────────────────

#[test]
fn waits_double_up_to_five_minutes() {
    let waits: Vec<i64> = (0..12).map(retry::backoff_ms).collect();
    assert_eq!(waits[..9], [1000, 2000, 4000, 8000, 16000, 32000, 64000, 128000, 256000]);
    assert!(waits[9..].iter().all(|w| *w == 300_000));
    assert_eq!(retry::backoff_ms(u32::MAX), 300_000);
}

#[test]
fn error_logs_hold_the_latest_twenty() {
    let mut log: Option<String> = None;
    for i in 0..30i64 {
        log = Some(retry::append_to_error_log(&log, &format!("e{i}\n\u{1F600}"), i - 5));
    }
    let read: Vec<serde_json::Value> = serde_json::from_str(log.as_ref().unwrap()).unwrap();
    assert_eq!(read.len(), 20);
    for (k, entry) in read.iter().enumerate() {
        assert_eq!(entry["error"], format!("e{}\n\u{1F600}", k + 10));
        assert_eq!(entry["ts"], k as i64 + 5);
    }
}

#[test]
fn unreadable_logs_are_begun_anew() {
    for broken in ["", "{", "{}", "null", "[1"] {
        assert_eq!(
            retry::append_to_error_log(&Some(broken.into()), "e", 1),
            "[{\"error\":\"e\",\"ts\":1}]"
        );
    }
    // What others wrote is kept, in compact form.
    assert_eq!(
        retry::append_to_error_log(&Some(" [ 1 , {\"b\": 2, \"a\": null} ] ".into()), "e", 1),
        "[1,{\"a\":null,\"b\":2},{\"error\":\"e\",\"ts\":1}]"
    );
    assert_eq!(json::log_entry("a\"b", -3), "{\"error\":\"a\\\"b\",\"ts\":-3}");
    assert_eq!(json::write_array(&vec![]), "[]");
}

// ── Setting an engine up ────────────────────────────────────────────────────

#[test]
fn builders_collect_a_setup() {
    let builder: EngineBuilder<&str, &str> = EngineBuilder::new();
    assert_eq!(builder.channel_capacity, 256);
    let setup = builder
        .db_path("/tmp/x.db".into())
        .collection("papers".into(), CollectionConfig { schema_version: 1, ..Default::default() })
        .collection("notes".into(), CollectionConfig::default())
        .collection("papers".into(), CollectionConfig { schema_version: 2, ..Default::default() })
        .channel_capacity(8)
        .record_backend("records")
        .blob_backend("blobs")
        .cache_dir("/tmp/cache".into())
        .encryption_key(KeySource::RawKey([1; 32]))
        .build()
        .unwrap();
    assert_eq!(setup.db_path, "/tmp/x.db");
    assert_eq!(setup.channel_capacity, 8);
    assert_eq!((setup.record_backend, setup.blob_backend), (Some("records"), Some("blobs")));
    assert_eq!(setup.cache_dir.as_deref(), Some("/tmp/cache"));
    assert!(matches!(setup.encryption_key, Some(KeySource::RawKey(k)) if k == [1; 32]));
    assert_eq!(setup.collections.len(), 2);
    assert_eq!(find_config(&setup.collections, "papers").unwrap().schema_version, 2);
    assert!(find_config(&setup.collections, "other").is_none());
}

#[test]
fn a_setup_needs_a_database() {
    let builder: EngineBuilder<(), ()> = EngineBuilder::default();
    match builder.build() {
        Err(e) => assert_eq!(
            e.message(),
            "db_path is required — call .db_path() on the builder"
        ),
        Ok(_) => panic!("no path was given"),
    }
}

#[test]
fn defaults_are_plain() {
    let list = ListOpts::default();
    assert_eq!((list.limit, list.offset, list.include_deleted), (None, 0, false));
    assert_eq!(list.order, SortOrder::HlcDesc);
    assert_eq!(SortOrder::default(), SortOrder::HlcDesc);
    assert_eq!(ItemEncryption::default(), ItemEncryption::Default);
    assert_eq!(CollectionEncryption::default(), CollectionEncryption::Default);
    assert_eq!(PutOpts::default().schema_version, None);
    assert_eq!(SyncStats::default(), SyncStats { pushed: 0, pulled: 0, conflicts: 0, errors: 0 });
    let def = IndexDef::new("metadata.year".into(), IndexKind::Integer);
    assert_eq!((def.field_path.as_str(), def.kind), ("metadata.year", IndexKind::Integer));
}

#[test]
fn words_stand_for_statuses_and_types() {
    for s in [BlobStatus::Pending, BlobStatus::Uploading, BlobStatus::Uploaded, BlobStatus::Cached] {
        assert_eq!(BlobStatus::from_db_str(s.as_str()), Some(s));
    }
    assert_eq!(BlobStatus::from_db_str("Pending"), None);
    assert_eq!(ColumnAffinity::Text.as_sql_type(), "TEXT");
    assert_eq!(ColumnAffinity::Integer.as_sql_type(), "INTEGER");
    assert_eq!(ColumnAffinity::Real.as_sql_type(), "REAL");
}

#[test]
fn errors_have_messages() {
    assert_eq!(SquirrelError::ActorClosed.message(), "actor channel closed unexpectedly");
    assert_eq!(SquirrelError::Db("x".into()).message(), "database error: x");
    assert_eq!(SquirrelError::Io("x".into()).message(), "I/O error: x");
    assert_eq!(SquirrelError::Other("x".into()).message(), "x");
}

// ── Cycles ──────────────────────────────────────────────────────────────────

#[test]
fn bursts_of_writes_are_waited_out() {
    let mut s = SyncLoop::new(0);
    assert_eq!(s.wait_until(), 60_000);
    assert_eq!(s.on_event(LoopEvent::Kick, 1000), LoopAction::Wait);
    assert_eq!(s.wait_until(), 1500);
    assert_eq!(s.on_event(LoopEvent::Kick, 1400), LoopAction::Wait);
    assert_eq!(s.wait_until(), 1900, "500 ms after the last write of the burst");
    assert_eq!(s.on_event(LoopEvent::Elapsed, 1900), LoopAction::RunCycle);
    assert_eq!(s.wait_until(), 61_900);
    assert_eq!(s.cycle_done(), 0);
}

#[test]
fn an_opened_loop_runs_a_cycle() {
    let mut s = SyncLoop::new(0);
    assert_eq!(s.on_event(LoopEvent::Opened, 5), LoopAction::RunCycle);
    assert_eq!(s.wait_until(), 60_005);
    assert_eq!(s.cycle_done(), 0);
}

#[test]
fn endless_writes_do_not_put_off_the_timer() {
    let mut s = SyncLoop::new(0);
    for n in 1..200 {
        assert_eq!(s.on_event(LoopEvent::Kick, n * 300), LoopAction::Wait);
        assert_eq!(s.wait_until(), (n * 300 + 500).min(60_000));
    }
    assert_eq!(s.on_event(LoopEvent::Kick, 60_000), LoopAction::RunCycle);
    assert_eq!(s.wait_until(), 120_000);
}

#[test]
fn waiting_callers_cut_a_burst_short() {
    let mut s = SyncLoop::new(0);
    s.on_event(LoopEvent::Kick, 10);
    assert_eq!(s.on_event(LoopEvent::ForceSync, 20), LoopAction::RunCycle);
    assert_eq!(s.wait_until(), 60_020);
    assert_eq!(s.cycle_done(), 1);
    assert_eq!(s.on_event(LoopEvent::ForceSync, 30), LoopAction::RunCycle);
    assert_eq!(s.cycle_done(), 1);
}

#[test]
fn a_closed_loop_ends_after_its_burst() {
    let mut s = SyncLoop::new(0);
    s.on_event(LoopEvent::Kick, 10);
    assert_eq!(s.on_event(LoopEvent::Closed, 20), LoopAction::RunCycle);
    assert_eq!(s.on_event(LoopEvent::Closed, 30), LoopAction::Exit);
}

#[test]
fn checkpoints_move_forward_only() {
    let clock = Hlc { physical_ms: 0, logical: 0, node_id: [0; 6] };
    let remote = |hlc: &str| squirreld::backend::RemoteRecord {
        record_id: "r".into(),
        collection: "c".into(),
        hlc: hlc.into(),
        data: None,
        dek_encrypted: None,
        deleted: true,
        schema_version: 0,
        format_version: 0,
    };
    let mut cycle = PullCycle::new(Some("5".into()), clock);
    assert!(cycle.finish("b").is_none(), "nothing was pulled");
    cycle.on_record(&remote("3"), true, 0);
    assert!(cycle.finish("b").is_none(), "nothing later was pulled");
    cycle.on_record(&remote("7"), true, 0);
    cycle.on_record(&remote("6"), true, 0);
    cycle.on_record(&remote("9"), false, 0);
    assert_eq!(cycle.reached.as_deref(), Some("7"));
    assert_eq!((cycle.stats.pulled, cycle.stats.errors), (3, 1));
    assert!(cycle.finish("b").is_some());
    assert!(PullCycle::new(None, clock).finish("b").is_none());
    assert_eq!(PullCycle::failed().errors, 1);
}

#[test]
fn stats_of_push_and_pull_are_combined() {
    let push = SyncStats { pushed: 1, pulled: 0, conflicts: 2, errors: 3 };
    let pull = SyncStats { pushed: 0, pulled: 4, conflicts: 0, errors: 5 };
    assert_eq!(
        sync::combine(&push, &pull),
        SyncStats { pushed: 1, pulled: 4, conflicts: 2, errors: 8 }
    );
}

// ── Time ────────────────────────────────────────────────────────────────────

#[test]
fn times_keep_their_low_bits() {
    assert_eq!(squirreld::hlc::shown_ms(None), 0);
    assert_eq!(squirreld::hlc::shown_ms(Some(1234)), 1234);
    assert_eq!(squirreld::hlc::shown_ms(Some(1 << 64 | 5)), 5);
    assert_eq!(squirreld::types::stored_ms(1234), 1234);
    assert_eq!(squirreld::types::stored_ms(u64::MAX), -1);
}
