use apfs_fastindex::fallback::{ChildMeta, ChildReport, DirListing, FallbackOptions, FallbackWalk};
use apfs_fastindex::namespace::EntryKind;

fn stat(name: &str, kind: EntryKind, file_id: u64, size: u64, allocated: u64, dev: u64) -> ChildReport {
    ChildReport {
        name: name.to_string(),
        meta: ChildMeta::Stat { kind, file_id, size, allocated_bytes: allocated, dev_id: dev, link_target: None },
    }
}

fn symlink(name: &str, file_id: u64, target: Result<&str, &str>) -> ChildReport {
    ChildReport {
        name: name.to_string(),
        meta: ChildMeta::Stat {
            kind: EntryKind::Symlink,
            file_id,
            size: 99,
            allocated_bytes: 4096,
            dev_id: 1,
            link_target: Some(target.map(|t| t.to_string()).map_err(|e| e.to_string())),
        },
    }
}

fn root_listing() -> DirListing {
    DirListing::Children(vec![
        stat("b.txt", EntryKind::File, 11, 6, 4096, 1),
        stat("a", EntryKind::Dir, 10, 64, 0, 1),
        stat(".fseventsd", EntryKind::Dir, 12, 0, 0, 1),
        symlink("link", 13, Ok("b.txt")),
        stat("mnt", EntryKind::Dir, 14, 0, 0, 2),
        ChildReport { name: "bad".to_string(), meta: ChildMeta::Failed("permission_denied".to_string()) },
    ], Vec::new())
}

#[test]
fn fallback_walk_records_entries_skips_and_boundaries() {
    let mut walk = FallbackWalk::new(1, FallbackOptions { cross_mounts: false });
    let root = walk.next_dir().expect("root is listed first");
    assert_eq!(root, ".");
    walk.record_listing(&root, root_listing());
    let next = walk.next_dir().expect("one subdirectory to enter");
    assert_eq!(next, "a");
    walk.record_listing(&next, DirListing::Unreadable("permission_denied".to_string()));
    assert_eq!(walk.next_dir(), None);
    let progress = walk.progress(5, true);
    assert_eq!((progress.scanned, progress.skipped, progress.terminal), (4, 3, true));

    let out = walk.finish("/Volumes/X", "/Volumes/X");
    let po = &out.parser_output;
    let paths: Vec<&str> = po.entries.iter().map(|e| e.path.as_str()).collect();
    assert_eq!(paths, vec!["a", "b.txt", "link", "mnt"]);
    let file = &po.entries[1];
    assert_eq!((file.entry_kind, file.file_id, file.logical_size, file.allocated_size), (EntryKind::File, 11, 6, Some(4096)));
    let dir = &po.entries[0];
    assert_eq!((dir.logical_size, dir.allocated_size), (0, Some(0)));
    let link = &po.entries[2];
    assert_eq!(link.logical_size, 5);
    assert_eq!(link.symlink_target.as_deref(), Some("b.txt"));
    assert_eq!(link.allocated_size, Some(0));

    let skips: Vec<(&str, &str)> = po.walk_skips.iter().map(|s| (s.path.as_str(), s.reason.as_str())).collect();
    assert_eq!(
        skips,
        vec![("a", "permission_denied"), ("bad", "permission_denied"), ("mnt", "mount_boundary")]
    );
    assert_eq!(po.backend_name, "rust-fallback-posix-walk");
    assert_eq!(po.source.source_kind, "mounted_directory");
    assert_eq!(po.source.allowlist_reason, "POSIX traversal fallback for mounted source (does not cross mount boundaries)");
    assert_eq!(po.scan_state.candidate_count, 0);
    assert!(out.correctness_claim.ends_with("mount boundaries are not crossed (default)"));
    assert_eq!(out.not_claimed.len(), 9);
    let agg_paths: Vec<&str> = po.aggregates.iter().map(|a| a.path.as_str()).collect();
    assert_eq!(agg_paths, vec![".", "a", "mnt"]);
    assert_eq!(po.aggregates[0].unique_inode_logical_total, 6);
    assert_eq!(po.aggregates[0].contributing_file_ids, vec![11]);
}

#[test]
fn fallback_walk_crosses_mounts_when_asked_and_nests_paths() {
    let mut walk = FallbackWalk::new(1, FallbackOptions { cross_mounts: true });
    let root = walk.next_dir().unwrap();
    walk.record_listing(&root, DirListing::Children(vec![stat("mnt", EntryKind::Dir, 14, 0, 0, 2)], Vec::new()));
    let mnt = walk.next_dir().unwrap();
    assert_eq!(mnt, "mnt");
    walk.record_listing(
        &mnt,
        DirListing::Children(vec![
            stat(".fseventsd", EntryKind::Dir, 20, 0, 0, 2),
            symlink("dangling", 21, Err("not_found")),
        ], Vec::new()),
    );
    assert_eq!(walk.next_dir(), Some("mnt/.fseventsd".to_string()));
    walk.record_listing("mnt/.fseventsd", DirListing::Children(Vec::new(), vec!["/x/mnt/.fseventsd/\u{fffd}".to_string()]));
    assert_eq!(walk.next_dir(), None);
    let out = walk.finish("/x", "/private/x");
    let po = &out.parser_output;
    let paths: Vec<&str> = po.entries.iter().map(|e| e.path.as_str()).collect();
    // `.fseventsd` is only left out at the top level.
    assert_eq!(paths, vec!["mnt", "mnt/.fseventsd", "mnt/dangling"]);
    assert_eq!(po.entries[2].logical_size, 0);
    assert_eq!(po.entries[2].symlink_target, None);
    let skips: Vec<(&str, &str)> = po.walk_skips.iter().map(|s| (s.path.as_str(), s.reason.as_str())).collect();
    assert_eq!(skips, vec![("/x/mnt/.fseventsd/\u{fffd}", "non_utf8_name"), ("mnt/dangling", "not_found")]);
    assert_eq!(po.source.requested_path, "/x");
    assert_eq!(po.source.raw_container_path, "/private/x");
    assert!(out.correctness_claim.ends_with("mount boundaries are crossed (--cross-mounts)"));
}

#[test]
fn fallback_walk_records_unreadable_root() {
    let mut walk = FallbackWalk::new(7, FallbackOptions { cross_mounts: false });
    let root = walk.next_dir().unwrap();
    walk.record_listing(&root, DirListing::Unreadable("read_error:Other".to_string()));
    let out = walk.finish("/r", "/r");
    assert!(out.parser_output.entries.is_empty());
    assert_eq!(out.parser_output.walk_skips[0].path, ".");
    assert_eq!(out.parser_output.walk_skips[0].reason, "read_error:Other");
    assert_eq!(out.parser_output.aggregates.len(), 1);
}

#[test]
fn fallback_walk_keeps_siblings_of_a_non_utf8_name() {
    let mut walk = FallbackWalk::new(1, FallbackOptions { cross_mounts: false });
    let root = walk.next_dir().unwrap();
    walk.record_listing(&root, DirListing::Children(vec![stat("d", EntryKind::Dir, 2, 0, 0, 1)], Vec::new()));
    let d = walk.next_dir().unwrap();
    assert_eq!(d, "d");
    walk.record_listing(
        &d,
        DirListing::Children(
            vec![stat("a.txt", EntryKind::File, 3, 5, 4096, 1)],
            vec!["/r/d/\u{fffd}x".to_string()],
        ),
    );
    assert_eq!(walk.next_dir(), None);
    let out = walk.finish("/r", "/r");
    let po = &out.parser_output;
    let paths: Vec<&str> = po.entries.iter().map(|e| e.path.as_str()).collect();
    assert_eq!(paths, vec!["d", "d/a.txt"]);
    let skips: Vec<(&str, &str)> = po.walk_skips.iter().map(|s| (s.path.as_str(), s.reason.as_str())).collect();
    assert_eq!(skips, vec![("/r/d/\u{fffd}x", "non_utf8_name")]);
}
