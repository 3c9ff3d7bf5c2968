use rust_api_example::clock::current_timestamp_ms;
use rust_api_example::{TagInput, TagList, TagListError, TagRecord};

fn input(epc: &str, tid: Option<&str>, ant: i32, rssi: i32) -> TagInput {
    TagInput {
        epc: epc.into(),
        tid: tid.map(|t| t.into()),
        ant,
        rssi,
    }
}

#[test]
fn add_without_tid_uses_epc_identifier() {
    let mut tag_list = TagList::new();
    let created = tag_list
        .add(TagInput {
            epc: "abcd1234".into(),
            tid: None,
            ant: 1,
            rssi: -42,
        })
        .expect("tag should be created");

    assert_eq!(created.identifier, "_ABCD1234");
    assert_eq!(tag_list.get_by_epc("ABCD1234"), Some(created.clone()));
    assert_eq!(tag_list.get_tid_by_epc("abcd1234"), None);
}

#[test]
fn add_with_tid_updates_secondary_index() {
    let mut tag_list = TagList::new();
    let created = tag_list
        .add(TagInput {
            epc: "abcd1234".into(),
            tid: Some("00112233445566778899aabb".into()),
            ant: 2,
            rssi: -30,
        })
        .expect("tag should be created");

    assert_eq!(created.identifier, "00112233445566778899AABB");
    assert_eq!(
        tag_list.get_by_tid("00112233445566778899aabb"),
        Some(created.clone())
    );
    assert_eq!(tag_list.get_by_epc("abcd1234"), Some(created.clone()));
    assert_eq!(
        tag_list.get_tid_by_epc("ABCD1234"),
        Some("00112233445566778899AABB".into())
    );
}

#[test]
fn remove_before_timestamp_only_removes_older_tags() {
    let mut tag_list = TagList::new();
    let first = tag_list
        .add(TagInput {
            epc: "AAAA".into(),
            tid: None,
            ant: 1,
            rssi: -10,
        })
        .expect("first tag should be created");

    // wait until the clock has moved past the first tag's creation time
    while current_timestamp_ms().expect("clock reads after the epoch") <= first.created_at_ms + 1 {}
    let second = tag_list
        .add(TagInput {
            epc: "BBBB".into(),
            tid: Some("ABCDEF0123456789ABCDEF01".into()),
            ant: 1,
            rssi: -20,
        })
        .expect("second tag should be created");

    let removed = tag_list.remove_before_timestamp(second.created_at_ms);

    assert_eq!(removed, vec![first]);
    assert_eq!(tag_list.get_by_epc("AAAA"), None);
    assert_eq!(tag_list.get_by_id(&second.identifier), Some(second));
}

#[test]
fn rejects_invalid_payloads() {
    let mut tag_list = TagList::new();

    let err = tag_list
        .add(TagInput {
            epc: "XYZ".into(),
            tid: None,
            ant: 1,
            rssi: -10,
        })
        .expect_err("invalid epc must fail");
    assert_eq!(err, TagListError::InvalidEpc);

    let err = tag_list
        .add(TagInput {
            epc: "ABCD".into(),
            tid: Some("1234".into()),
            ant: 1,
            rssi: -10,
        })
        .expect_err("invalid tid must fail");
    assert_eq!(err, TagListError::InvalidTid);

    let err = tag_list
        .add(TagInput {
            epc: "ABCD".into(),
            tid: None,
            ant: 0,
            rssi: -10,
        })
        .expect_err("invalid ant must fail");
    assert_eq!(err, TagListError::InvalidAnt);

    let err = tag_list
        .add(TagInput {
            epc: "ABCD".into(),
            tid: None,
            ant: 1,
            rssi: 0,
        })
        .expect_err("invalid rssi must fail");
    assert_eq!(err, TagListError::InvalidRssi);
}

#[test]
fn library_supports_create_and_lookup() {
    let mut tag_list = TagList::new();
    let created = tag_list
        .add(input("abcd1234", Some("00112233445566778899aabb"), 1, -55))
        .expect("request should succeed");
    let found = tag_list
        .get_by_epc("ABCD1234")
        .expect("tag should be found");
    assert_eq!(found, created);
    assert_eq!(found.identifier, "00112233445566778899AABB");
    assert_eq!(found.epc, "ABCD1234");
}

#[test]
fn add_at_uses_given_timestamp_and_normalizes() {
    let mut tag_list = TagList::new();
    let created = tag_list
        .add_at(input("  ab12  ", Some(" 00112233445566778899aabb\t"), 3, -255), 77)
        .unwrap();
    assert_eq!(
        created,
        TagRecord {
            identifier: "00112233445566778899AABB".into(),
            epc: "AB12".into(),
            tid: Some("00112233445566778899AABB".into()),
            ant: 3,
            rssi: -255,
            created_at_ms: 77,
        }
    );
}

#[test]
fn refused_payload_leaves_registry_unchanged() {
    let mut tag_list = TagList::new();
    let kept = tag_list.add_at(input("AAAA", None, 1, -1), 5).unwrap();
    assert_eq!(
        tag_list.add_at(input("AAAA", None, 1, -256), 6),
        Err(TagListError::InvalidRssi)
    );
    assert_eq!(tag_list.get_all(), vec![kept]);
}

#[test]
fn error_checks_run_in_order() {
    let mut tag_list = TagList::new();
    assert_eq!(
        tag_list.add_at(input("", Some("x"), 0, 0), 1),
        Err(TagListError::InvalidEpc)
    );
    assert_eq!(
        tag_list.add_at(input("ABCD", Some("x"), 0, 0), 1),
        Err(TagListError::InvalidTid)
    );
    assert_eq!(
        tag_list.add_at(input("ABCD", None, -3, 0), 1),
        Err(TagListError::InvalidAnt)
    );
    assert_eq!(
        tag_list.add_at(input("ABCD", None, 4, -300), 1),
        Err(TagListError::InvalidRssi)
    );
    assert_eq!(tag_list.get_all(), vec![]);
}

#[test]
fn epc_of_odd_length_or_non_hex_is_refused() {
    let mut tag_list = TagList::new();
    assert_eq!(tag_list.add_at(input("ABC", None, 1, -1), 1), Err(TagListError::InvalidEpc));
    assert_eq!(tag_list.add_at(input("ABCDE", None, 1, -1), 1), Err(TagListError::InvalidEpc));
    assert_eq!(tag_list.add_at(input("ABCG", None, 1, -1), 1), Err(TagListError::InvalidEpc));
    assert_eq!(tag_list.add_at(input("ÀBCD", None, 1, -1), 1), Err(TagListError::InvalidEpc));
    assert!(tag_list.add_at(input("abcdef01", None, 1, -1), 1).is_ok());
}

#[test]
fn re_adding_same_tag_replaces_it() {
    let mut tag_list = TagList::new();
    tag_list.add_at(input("AAAA", None, 1, -10), 1).unwrap();
    let newer = tag_list.add_at(input("aaaa", None, 2, -20), 2).unwrap();
    assert_eq!(tag_list.get_all(), vec![newer.clone()]);
    assert_eq!(tag_list.get_by_id("_aaaa"), Some(newer));
}

#[test]
fn adding_tid_to_epc_replaces_epc_identifier() {
    let mut tag_list = TagList::new();
    let plain = tag_list.add_at(input("AAAA", None, 1, -10), 1).unwrap();
    assert_eq!(plain.identifier, "_AAAA");
    let with_tid = tag_list
        .add_at(input("AAAA", Some("ABCDEF0123456789ABCDEF01"), 1, -10), 2)
        .unwrap();
    assert_eq!(tag_list.get_by_id("_AAAA"), None);
    assert_eq!(tag_list.get_by_epc("AAAA"), Some(with_tid.clone()));
    assert_eq!(tag_list.get_all(), vec![with_tid]);
}

#[test]
fn tid_moving_to_new_epc_drops_old_epc_index() {
    let mut tag_list = TagList::new();
    tag_list
        .add_at(input("AAAA", Some("ABCDEF0123456789ABCDEF01"), 1, -10), 1)
        .unwrap();
    let moved = tag_list
        .add_at(input("BBBB", Some("ABCDEF0123456789ABCDEF01"), 1, -10), 2)
        .unwrap();
    assert_eq!(tag_list.get_by_epc("AAAA"), None);
    assert_eq!(tag_list.get_tid_by_epc("AAAA"), None);
    assert_eq!(tag_list.get_by_epc("BBBB"), Some(moved.clone()));
    assert_eq!(tag_list.get_by_tid("abcdef0123456789abcdef01"), Some(moved));
    assert_eq!(tag_list.get_all().len(), 1);
}

#[test]
fn get_all_orders_by_time_then_identifier() {
    let mut tag_list = TagList::new();
    let c = tag_list.add_at(input("CCCC", None, 1, -1), 10).unwrap();
    let b = tag_list.add_at(input("BBBB", None, 1, -1), 5).unwrap();
    let a = tag_list.add_at(input("AAAA", None, 1, -1), 10).unwrap();
    let t = tag_list
        .add_at(input("DDDD", Some("000000000000000000000000"), 1, -1), 10)
        .unwrap();
    assert_eq!(tag_list.get_all(), vec![b, t, a, c]);
}

#[test]
fn remove_by_identifier_normalizes_and_clears_index() {
    let mut tag_list = TagList::new();
    let created = tag_list.add_at(input("ABCD", None, 1, -1), 1).unwrap();
    assert_eq!(tag_list.remove("  _abcd "), Some(created));
    assert_eq!(tag_list.remove("_ABCD"), None);
    assert_eq!(tag_list.get_by_epc("ABCD"), None);
    assert_eq!(tag_list.get_tid_by_epc("ABCD"), None);
    assert_eq!(tag_list.get_all(), vec![]);
}

#[test]
fn remove_before_timestamp_sorts_by_time_and_keeps_later() {
    let mut tag_list = TagList::new();
    let x = tag_list.add_at(input("1111", None, 1, -1), 30).unwrap();
    let y = tag_list.add_at(input("2222", None, 1, -1), 10).unwrap();
    let z = tag_list.add_at(input("3333", None, 1, -1), 20).unwrap();
    let w = tag_list.add_at(input("4444", None, 1, -1), 40).unwrap();
    assert_eq!(tag_list.remove_before_timestamp(31), vec![y, z, x]);
    assert_eq!(tag_list.get_all(), vec![w]);
    assert_eq!(tag_list.remove_before_timestamp(0), vec![]);
}

#[test]
fn get_by_tid_reads_underscore_identifiers_too() {
    let mut tag_list = TagList::new();
    let created = tag_list.add_at(input("ab12", None, 1, -1), 1).unwrap();
    assert_eq!(tag_list.get_by_tid(" _ab12 "), Some(created));
    assert_eq!(tag_list.get_by_tid("ab12"), None);
}

#[test]
fn build_identifier_prefers_tid() {
    assert_eq!(TagList::build_identifier("ABCD", Some("T")), "T");
    assert_eq!(TagList::build_identifier("ABCD", None), "_ABCD");
}

#[test]
fn error_messages() {
    assert_eq!(
        TagListError::InvalidEpc.message(),
        "epc must be non-empty, hexadecimal, and have a length multiple of 4"
    );
    assert_eq!(
        TagListError::InvalidTid.message(),
        "tid must be exactly 24 hexadecimal characters"
    );
    assert_eq!(TagListError::InvalidAnt.message(), "ant must be a positive integer");
    assert_eq!(TagListError::InvalidRssi.message(), "rssi must be between -255 and -1");
}

#[test]
fn default_registry_is_empty() {
    let mut tag_list = TagList::default();
    assert_eq!(tag_list.get_all(), vec![]);
    assert!(tag_list.add(input("ABCD", None, 1, -1)).is_ok());
    assert_eq!(tag_list.get_all().len(), 1);
}

#[test]
fn refused_payload_through_add_stores_nothing() {
    let mut tag_list = TagList::new();
    assert_eq!(tag_list.add(input("ABC", None, 1, -1)), Err(TagListError::InvalidEpc));
    assert_eq!(tag_list.get_all(), vec![]);
}

#[test]
fn get_all_twice_gives_equal_lists() {
    let mut tag_list = TagList::new();
    tag_list.add_at(input("CCCC", None, 1, -1), 3).unwrap();
    tag_list.add_at(input("AAAA", None, 1, -1), 3).unwrap();
    tag_list
        .add_at(input("BBBB", Some("FFFFFFFFFFFFFFFFFFFFFFFF"), 1, -1), 1)
        .unwrap();
    let first = tag_list.get_all();
    let second = tag_list.get_all();
    assert_eq!(first, second);
    assert_eq!(first.len(), 3);
}

#[test]
fn clock_reads_after_epoch() {
    assert!(current_timestamp_ms().is_some());
}
