use squirreld::error::SquirrelError;
use squirreld::Hlc;

fn reading(physical_ms: u64, logical: u16, node_id: [u8; 6]) -> Hlc {
    Hlc { physical_ms, logical, node_id }
}

#[test]
fn tick_is_monotonic() {
    let node = [1u8; 6];
    let h0 = Hlc::new(node);
    let h1 = h0.tick();
    let h2 = h1.tick();
    assert!(h1 > h0, "second tick must exceed first");
    assert!(h2 > h1, "third tick must exceed second");
}

#[test]
fn a_clock_starts_at_the_wall_clock() {
    assert_eq!(Hlc::new_at([7; 6], 1234), reading(1234, 0, [7; 6]));
    let h = Hlc::new([7; 6]);
    assert_eq!((h.logical, h.node_id), (0, [7; 6]));
}

#[test]
fn tick_increments_logical_when_wall_is_behind() {
    let node = [2u8; 6];
    let h = reading(9_999_999_999_999, 5, node);
    let next = h.tick();
    assert_eq!(next.physical_ms, h.physical_ms, "physical should be unchanged");
    assert_eq!(next.logical, 6, "logical should increment by 1");
}

#[test]
fn display_fromstr_roundtrip() {
    let node = [0xAB, 0xCD, 0xEF, 0x12, 0x34, 0x56];
    let h = reading(0x0001_2345_6789A, 42, node);
    let s = h.to_text();
    let parsed: Hlc = s.parse().unwrap();
    assert_eq!(h, parsed);
}

#[test]
fn string_order_matches_semantic_order() {
    let node = [0u8; 6];
    let h1 = reading(1000, 0, node);
    let h2 = reading(1000, 1, node);
    let h3 = reading(1001, 0, node);
    assert!(h1 < h2 && h2 < h3, "semantic order");
    assert!(h1.to_text() < h2.to_text(), "string order matches for logical");
    assert!(h2.to_text() < h3.to_text(), "string order matches for physical");
}

#[test]
fn merge_exceeds_both_inputs() {
    let node = [3u8; 6];
    let local = reading(1000, 5, node);
    let remote = reading(1000, 3, [4u8; 6]);
    let merged = local.merge(&remote);
    assert!(merged > local, "merged must exceed local");
    assert!(merged > remote, "merged must exceed remote");
}

#[test]
fn invalid_hlc_string_returns_error() {
    assert!("not-an-hlc".parse::<Hlc>().is_err());
    assert!("".parse::<Hlc>().is_err());
    assert!("fffff-0001-zzzzzzzzzzzz".parse::<Hlc>().is_err());
}

#[test]
fn text_has_fixed_widths() {
    let h = reading(0x195f3a1e42b, 3, [0xa7, 0xf2, 0xe1, 0xc9, 0xb8, 0xd4]);
    assert_eq!(h.to_text(), "00195f3a1e42b-0003-a7f2e1c9b8d4");
    assert_eq!(reading(0, 0, [0; 6]).to_text(), "0000000000000-0000-000000000000");
    let all = reading(u64::MAX, u16::MAX, [0xff; 6]);
    assert_eq!(all.to_text(), "ffffffffffffffff-ffff-ffffffffffff");
    assert_eq!(Hlc::from_text(&all.to_text()).unwrap(), all);
}

#[test]
fn parsing_takes_what_a_number_may_be() {
    // Digits of either case, a plus sign, and other widths are accepted.
    let h = Hlc::from_text("FF-a-00000000000A").unwrap();
    assert_eq!(h, reading(255, 10, [0, 0, 0, 0, 0, 10]));
    assert_eq!(Hlc::from_text("+1-+2-000000000000").unwrap(), reading(1, 2, [0; 6]));
    for bad in [
        "-0001-aabbcc112233",
        "1--aabbcc112233",
        "1-1-aabbcc1122",
        "1-1-aabbcc11223",
        "1-1-aabbcc112233-",
        "1-10000-aabbcc112233",
        "10000000000000000-0-aabbcc112233",
        "1-1",
        "é-1-aabbcc112233",
        "1-1-aébbcc11223",
    ] {
        match Hlc::from_text(bad) {
            Err(SquirrelError::InvalidHlc(text)) => assert_eq!(text, bad),
            other => panic!("{bad} gave {other:?}"),
        }
    }
    assert_eq!(
        Hlc::from_text("x").unwrap_err().message(),
        "invalid HLC string: x"
    );
}

#[test]
fn tick_follows_the_wall_clock() {
    let h = reading(1000, 7, [9; 6]);
    assert_eq!(h.tick_at(2000), reading(2000, 0, [9; 6]));
    assert_eq!(h.tick_at(1000), reading(1000, 8, [9; 6]));
    assert_eq!(h.tick_at(1), reading(1000, 8, [9; 6]));
    let full = reading(1000, u16::MAX, [9; 6]);
    assert_eq!(full.tick_at(1000), reading(1001, 0, [9; 6]));
    assert_eq!(full.tick_at(1), reading(1001, 0, [9; 6]));
    assert_eq!(full.tick_at(1001), reading(1001, 0, [9; 6]));
    let last = reading(u64::MAX, u16::MAX, [9; 6]);
    assert_eq!(last.tick_at(1000), last);
}

#[test]
fn a_frozen_clock_still_moves_forward() {
    let mut h = reading(1000, 0, [9; 6]);
    for _ in 0..200_000 {
        let next = h.tick_at(1000);
        assert!(next > h);
        h = next;
    }
    assert_eq!(h, reading(1003, 3392, [9; 6]));
}

#[test]
fn merge_takes_the_latest() {
    let local = reading(1000, 5, [1; 6]);
    assert_eq!(local.merge_at(&reading(1000, 9, [2; 6]), 0), reading(1000, 10, [1; 6]));
    assert_eq!(local.merge_at(&reading(900, 9, [2; 6]), 0), reading(1000, 6, [1; 6]));
    assert_eq!(local.merge_at(&reading(1100, 9, [2; 6]), 0), reading(1100, 10, [1; 6]));
    assert_eq!(local.merge_at(&reading(1100, 9, [2; 6]), 1200), reading(1200, 0, [1; 6]));
    assert_eq!(local.merge_at(&reading(1100, u16::MAX, [2; 6]), 0), reading(1101, 0, [1; 6]));
    assert_eq!(local.merge_at(&reading(1000, u16::MAX, [2; 6]), 0), reading(1001, 0, [1; 6]));
    let full = reading(1000, u16::MAX, [1; 6]);
    assert_eq!(full.merge_at(&reading(1000, 3, [2; 6]), 0), reading(1001, 0, [1; 6]));
    assert_eq!(full.merge_at(&reading(900, 3, [2; 6]), 1000), reading(1001, 0, [1; 6]));
}

#[test]
fn observed_readings_are_followed() {
    let clock = reading(1000, 0, [1; 6]);
    let remote = reading(5000, 3, [2; 6]);
    let seen = clock.observe(&remote.to_text(), 1500);
    assert!(seen.tick_at(1500) > remote);
    assert_eq!(seen.node_id(), &[1; 6]);
    assert_eq!(clock.observe("nonsense", 1500), clock);
    let full = reading(5000, u16::MAX, [2; 6]);
    assert!(clock.observe(&full.to_text(), 1500).tick_at(1500) > full);
}

#[test]
fn accessors_show_the_parts() {
    let h = reading(77, 8, [1, 2, 3, 4, 5, 6]);
    assert_eq!(h.physical_ms(), 77);
    assert_eq!(h.logical(), 8);
    assert_eq!(h.node_id(), &[1, 2, 3, 4, 5, 6]);
}

#[test]
fn order_goes_by_time_then_count_then_node() {
    let mut all = vec![
        reading(2, 0, [0; 6]),
        reading(1, 1, [0; 6]),
        reading(1, 0, [1; 6]),
        reading(1, 0, [0; 6]),
        reading(1, 0, [0, 0, 0, 0, 0, 1]),
    ];
    all.sort();
    let texts: Vec<String> = all.iter().map(|h| h.to_text()).collect();
    let mut sorted = texts.clone();
    sorted.sort();
    assert_eq!(texts, sorted);
    assert_eq!(all[0], reading(1, 0, [0; 6]));
    assert_eq!(all[4], reading(2, 0, [0; 6]));
    for i in 1..all.len() {
        assert!(all[i - 1] < all[i]);
        assert!(all[i - 1].before(&all[i]));
        assert!(!all[i].before(&all[i - 1]));
    }
}

#[test]
fn new_readings_show_the_time() {
    let now = || {
        std::time::SystemTime::now()
            .duration_since(std::time::UNIX_EPOCH)
            .unwrap()
            .as_millis() as u64
    };
    let before = now();
    let h = Hlc::new([7; 6]);
    let after = now();
    assert!(before <= h.physical_ms && h.physical_ms <= after);
    assert_eq!((h.logical, h.node_id), (0, [7; 6]));
}
