use apfs_fastindex::snapshots::{
    classify, enumerate_mount, parse_diskutil_output, parse_tmutil_output, parse_u64, SnapshotEntry, SnapshotEnumeration,
    SnapshotVerdict,
};

#[test]
fn ex29_tmutil_no_snapshots_returns_empty() {
    let output = "Snapshots for disk /:\n";
    let parsed = parse_tmutil_output(output);
    assert!(parsed.is_empty());
}

#[test]
fn ex29_tmutil_parses_user_snapshots() {
    let output = "Snapshots for disk /:\n\
                  com.apple.TimeMachine.2026-05-20-100000.local\n\
                  com.apple.TimeMachine.2026-05-20-110000.local\n";
    let parsed = parse_tmutil_output(output);
    assert_eq!(parsed.len(), 2);
    assert_eq!(parsed[0].name, "com.apple.TimeMachine.2026-05-20-100000.local");
    assert!(parsed[0].user_visible);
    assert_eq!(parsed[1].name, "com.apple.TimeMachine.2026-05-20-110000.local");
    assert!(parsed[1].user_visible);
}

#[test]
fn ex29_tmutil_filters_sealed_system_snapshot() {
    let output = "Snapshots for disk /:\n\
                  com.apple.os.update-DEADBEEF\n";
    let parsed = parse_tmutil_output(output);
    assert_eq!(parsed.len(), 1);
    assert_eq!(parsed[0].name, "com.apple.os.update-DEADBEEF");
    assert!(!parsed[0].user_visible);
}

#[test]
fn ex29_diskutil_parses_actual_host_fixture() {
    let output = "Snapshot for disk3s1s1 (1 found)\n\
                  |\n\
                  +-- 3E1AC922-F4EC-433E-B4D0-0052ADD81E03\n    \
                          Name:        com.apple.os.update-5514FF97DEE9C60C7FBF462B06A418D5FC4A882D5AF41D2BAF0A1419FB9B9F86\n    \
                          XID:         2293965\n    \
                          Purgeable:   No\n    \
                          NOTE:        This snapshot limits the minimum size of APFS Container disk3\n";
    let parsed = parse_diskutil_output(output);
    assert_eq!(parsed.len(), 1);
    let s = &parsed[0];
    assert_eq!(s.uuid.as_deref(), Some("3E1AC922-F4EC-433E-B4D0-0052ADD81E03"));
    assert_eq!(s.xid, Some(2293965));
    assert!(s.name.starts_with("com.apple.os.update-"));
    assert!(!s.user_visible);
}

#[test]
fn ex29_diskutil_parses_multiple_snapshots() {
    let output = "Snapshot for disk3s5 (2 found)\n\
                  |\n\
                  +-- AAAA-BBBB-CCCC-DDDD-EEEE\n    \
                          Name:        com.apple.TimeMachine.2026-05-20-100000.local\n    \
                          XID:         100\n\
                  |\n\
                  +-- 1111-2222-3333-4444-5555\n    \
                          Name:        com.apple.TimeMachine.2026-05-20-110000.local\n    \
                          XID:         200\n";
    let parsed = parse_diskutil_output(output);
    assert_eq!(parsed.len(), 2);
    assert!(parsed[0].user_visible);
    assert!(parsed[1].user_visible);
    assert_eq!(parsed[0].xid, Some(100));
    assert_eq!(parsed[1].xid, Some(200));
}

#[test]
fn ex29_classify_no_user_snapshots_on_sealed_only_host() {
    let enums = vec![SnapshotEnumeration {
        mount_point: "/".into(),
        tmutil_entries: vec![],
        diskutil_entries: vec![SnapshotEntry {
            name: "com.apple.os.update-DEAD".into(),
            user_visible: false,
            uuid: Some("ABC".into()),
            xid: Some(1),
        }],
    }];
    let v = classify(&enums);
    assert!(matches!(
        v,
        SnapshotVerdict::NoUserSnapshots {
            sealed_system_excluded_count: 1
        }
    ));
}

#[test]
fn ex29_classify_enumerated_when_user_snapshots_present() {
    let enums = vec![SnapshotEnumeration {
        mount_point: "/".into(),
        tmutil_entries: vec![SnapshotEntry {
            name: "com.apple.TimeMachine.2026-05-20-100000.local".into(),
            user_visible: true,
            uuid: None,
            xid: None,
        }],
        diskutil_entries: vec![],
    }];
    let v = classify(&enums);
    match v {
        SnapshotVerdict::Enumerated {
            user_visible_count,
            sealed_system_excluded_count,
        } => {
            assert_eq!(user_visible_count, 1);
            assert_eq!(sealed_system_excluded_count, 0);
        }
        other => panic!("expected Enumerated, got {other:?}"),
    }
}

#[test]
fn ex29_classify_empty_enumeration_returns_no_snapshots() {
    let v = classify(&[]);
    assert!(matches!(
        v,
        SnapshotVerdict::NoUserSnapshots {
            sealed_system_excluded_count: 0
        }
    ));
}

/// The host enumeration with the tools unavailable (as on a host without
/// `tmutil` and `diskutil`): the classifier still returns a well-formed
/// verdict.
#[test]
fn ex29_enumerate_host_snapshots() {
    let enums = [enumerate_mount("/", None, None), enumerate_mount("/System/Volumes/Data", None, None)];
    let verdict = classify(&enums);
    match &verdict {
        SnapshotVerdict::Enumerated { user_visible_count, .. } => assert!(*user_visible_count > 0),
        SnapshotVerdict::NoUserSnapshots { .. } => {}
        SnapshotVerdict::ToolingUnavailable { reason } => assert!(!reason.is_empty()),
    }
    let total: usize = enums.iter().map(|e| e.tmutil_entries.len() + e.diskutil_entries.len()).sum();
    let (visible, sealed) = match verdict {
        SnapshotVerdict::Enumerated { user_visible_count, sealed_system_excluded_count } => {
            (user_visible_count as usize, sealed_system_excluded_count as usize)
        }
        SnapshotVerdict::NoUserSnapshots { sealed_system_excluded_count } => (0, sealed_system_excluded_count as usize),
        SnapshotVerdict::ToolingUnavailable { .. } => (0, 0),
    };
    assert_eq!(visible + sealed, total);
}

#[test]
fn tmutil_skips_note_lines_and_trims() {
    let output = "Snapshots for disk /:\r\n  NOTE: something\r\n  com.apple.TimeMachine.x.local  \r\n\n";
    let parsed = parse_tmutil_output(output);
    assert_eq!(parsed.len(), 1);
    assert_eq!(parsed[0].name, "com.apple.TimeMachine.x.local");
    assert_eq!(parsed[0].uuid, None);
}

#[test]
fn diskutil_block_without_name_is_dropped_and_bad_xid_is_none() {
    let output = "+-- AAA\n+-- BBB\n Name: snap\n XID: 12x\n";
    let parsed = parse_diskutil_output(output);
    assert_eq!(parsed.len(), 1);
    assert_eq!(parsed[0].uuid.as_deref(), Some("BBB"));
    assert_eq!(parsed[0].name, "snap");
    assert_eq!(parsed[0].xid, None);
    let parsed = parse_diskutil_output(" Name: orphan\n XID: +7\n");
    assert_eq!(parsed.len(), 1);
    assert_eq!(parsed[0].uuid, None);
    assert_eq!(parsed[0].xid, Some(7));
}

#[test]
fn parse_u64_matches_std() {
    for text in ["0", "+5", "18446744073709551615", "18446744073709551616", "", "+", "1a", "-1", "007"] {
        assert_eq!(parse_u64(text), text.parse::<u64>().ok(), "{text:?}");
    }
}
