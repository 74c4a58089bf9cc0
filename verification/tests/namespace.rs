use std::collections::HashMap;

use apfs_fastindex::fs_record_body::{DstreamFields, InodeBody, XattrBody};
use apfs_fastindex::namespace::{
    ancestor_directories, build_aggregates, compute_allocated_size, decmpfs_uncompressed_size, hex_to_vec,
    DrecChild, EntryKind, NamespaceEntry, NamespaceIndex, WalkSkip, XattrLookup, APFS_ROOT_DIR_OID, DT_DIR,
    DT_LNK, DT_REG, MAX_TREE_DEPTH, XATTR_DECMPFS_NAME, XATTR_RFORK_NAME,
};

#[test]
fn ancestor_directories_root_only() {
    assert_eq!(ancestor_directories("foo.txt"), vec!["."]);
}

#[test]
fn ancestor_directories_nested() {
    assert_eq!(ancestor_directories("a/b/c.txt"), vec!["a/b".to_string(), "a".to_string(), ".".to_string()],);
}

#[test]
fn decmpfs_size_reads_le_u64_at_offset_8() {
    let payload = "00000000000000005500000000000000";
    assert_eq!(decmpfs_uncompressed_size(payload), Some(0x55));
}

#[test]
fn decmpfs_size_rejects_short_payload() {
    let payload = "00000000";
    assert_eq!(decmpfs_uncompressed_size(payload), None);
}

fn make_inode(dstream: Option<DstreamFields>, sparse_bytes: Option<u64>) -> InodeBody {
    InodeBody {
        parent_id: 0,
        private_id: 0,
        internal_flags: 0,
        nchildren_or_nlink: 1,
        bsd_flags: 0,
        owner: 0,
        group: 0,
        mode: 0o100_644,
        uncompressed_size: 0,
        has_uncompressed_size: false,
        xfields: vec![],
        xfield_used_data: 0,
        xfield_padded_total: 0,
        xfield_unused_trailing_bytes: 0,
        dstream,
        sparse_bytes,
        inode_name: None,
    }
}

fn make_dstream(alloced_size: u64) -> DstreamFields {
    DstreamFields { size: 0, alloced_size, default_crypto_id: 0, total_bytes_written: 0, total_bytes_read: 0 }
}

fn make_xattr_stream(alloced_size: u64) -> XattrBody {
    XattrBody {
        flags: 0x0001,
        xdata_len: 48,
        embedded: false,
        stream: true,
        payload_hex: String::new(),
        payload_utf8: None,
        stream_xattr_obj_id: Some(0),
        stream_dstream: Some(make_dstream(alloced_size)),
    }
}

fn make_xattr_embedded() -> XattrBody {
    XattrBody {
        flags: 0x0002,
        xdata_len: 16,
        embedded: true,
        stream: false,
        payload_hex: "66706d63080000000004000000000000".to_string(),
        payload_utf8: None,
        stream_xattr_obj_id: None,
        stream_dstream: None,
    }
}

#[test]
fn ex26_sparse_subtracts_sparse_bytes_from_alloced() {
    let inode = make_inode(Some(make_dstream(1_056_768)), Some(1_032_192));
    let picked = compute_allocated_size(DT_REG, Some(&inode), None);
    assert_eq!(picked, Some(24_576));
}

#[test]
fn ex26_sparse_underflow_saturates_at_zero() {
    let inode = make_inode(Some(make_dstream(4096)), Some(8192));
    let picked = compute_allocated_size(DT_REG, Some(&inode), None);
    assert_eq!(picked, Some(0));
}

#[test]
fn ex26_regular_emits_dstream_alloced_size() {
    let inode = make_inode(Some(make_dstream(4096)), None);
    let picked = compute_allocated_size(DT_REG, Some(&inode), None);
    assert_eq!(picked, Some(4096));
}

#[test]
fn ex26_decmpfs_xattr_stream_stored() {
    let inode = make_inode(None, None);
    let decmpfs = make_xattr_stream(4096);
    let mut map = XattrLookup::new();
    map.insert(XATTR_DECMPFS_NAME, &decmpfs);
    let picked = compute_allocated_size(DT_REG, Some(&inode), Some(&map));
    assert_eq!(picked, Some(4096));
}

#[test]
fn ex26_decmpfs_resource_fork_stored() {
    let inode = make_inode(None, None);
    let decmpfs = make_xattr_embedded();
    let rfork = make_xattr_stream(4096);
    let mut map = XattrLookup::new();
    map.insert(XATTR_DECMPFS_NAME, &decmpfs);
    map.insert(XATTR_RFORK_NAME, &rfork);
    let picked = compute_allocated_size(DT_REG, Some(&inode), Some(&map));
    assert_eq!(picked, Some(4096));
}

#[test]
fn ex26_decmpfs_both_streams_sum() {
    let inode = make_inode(None, None);
    let decmpfs = make_xattr_stream(4096);
    let rfork = make_xattr_stream(8192);
    let mut map = XattrLookup::new();
    map.insert(XATTR_DECMPFS_NAME, &decmpfs);
    map.insert(XATTR_RFORK_NAME, &rfork);
    let picked = compute_allocated_size(DT_REG, Some(&inode), Some(&map));
    assert_eq!(picked, Some(12_288));
}

#[test]
fn ex26_decmpfs_all_embedded_picks_zero() {
    let inode = make_inode(None, None);
    let decmpfs = make_xattr_embedded();
    let mut map = XattrLookup::new();
    map.insert(XATTR_DECMPFS_NAME, &decmpfs);
    let picked = compute_allocated_size(DT_REG, Some(&inode), Some(&map));
    assert_eq!(picked, Some(0));
}

#[test]
fn ex26_symlink_and_dir_emit_zero() {
    let inode = make_inode(None, None);
    assert_eq!(compute_allocated_size(DT_LNK, Some(&inode), None), Some(0));
    assert_eq!(compute_allocated_size(DT_DIR, Some(&inode), None), Some(0));
}

#[test]
fn ex26_regular_without_inode_returns_none() {
    let picked = compute_allocated_size(DT_REG, None, None);
    assert_eq!(picked, None);
}

fn file(path: &str, file_id: u64, logical_size: u64, allocated_size: Option<u64>) -> NamespaceEntry {
    NamespaceEntry {
        path: path.into(),
        entry_kind: EntryKind::File,
        file_id,
        logical_size,
        symlink_target: None,
        allocated_size,
    }
}

#[test]
fn aggregate_collapses_when_any_inode_has_none_allocated() {
    let entries = vec![file("ordinary.txt", 10, 100, Some(4096)), file("sparse.bin", 11, 200, None)];
    let aggregates = build_aggregates(&entries);
    let root = aggregates.iter().find(|a| a.path == ".").expect("root aggregate exists");
    assert_eq!(root.unique_inode_logical_total, 300);
    assert_eq!(root.unique_inode_allocated_total, None);
    assert_eq!(root.contributing_file_ids, vec![10, 11]);
}

#[test]
fn aggregate_sums_allocated_when_all_inodes_present() {
    let entries = vec![file("a.txt", 20, 100, Some(4096)), file("b.txt", 21, 200, Some(8192))];
    let aggregates = build_aggregates(&entries);
    let root = aggregates.iter().find(|a| a.path == ".").expect("root aggregate exists");
    assert_eq!(root.unique_inode_allocated_total, Some(12288));
}

#[test]
fn aggregate_counts_hard_linked_inode_once_for_allocation() {
    let entries = vec![file("ordinary.txt", 30, 29, Some(4096)), file("hard.txt", 30, 29, Some(4096))];
    let aggregates = build_aggregates(&entries);
    let root = aggregates.iter().find(|a| a.path == ".").expect("root aggregate exists");
    assert_eq!(root.unique_inode_logical_total, 29);
    assert_eq!(root.unique_inode_allocated_total, Some(4096));
    assert_eq!(root.contributing_file_ids, vec![30]);
}

fn dir_child(name: &str, file_id: u64) -> DrecChild {
    DrecChild { name: name.to_string(), file_id, entry_type: DT_DIR }
}

fn empty_index<'a>(drec_children: HashMap<u64, Vec<DrecChild>>) -> NamespaceIndex<'a> {
    NamespaceIndex { drec_children, inode_by_id: HashMap::new(), xattrs_by_id: HashMap::new() }
}

fn make_index_with_chain(names: &[String]) -> NamespaceIndex<'static> {
    let mut drec: HashMap<u64, Vec<DrecChild>> = HashMap::new();
    for (i, name) in names.iter().enumerate() {
        let parent_id = if i == 0 { APFS_ROOT_DIR_OID } else { APFS_ROOT_DIR_OID + i as u64 };
        let child_file_id = APFS_ROOT_DIR_OID + (i as u64) + 1;
        drec.entry(parent_id).or_default().push(dir_child(name, child_file_id));
    }
    empty_index(drec)
}

#[test]
fn walk_dir_depth_cap_emits_walk_skip() {
    let names: Vec<String> = (0..130).map(|i| format!("d{:03}", i)).collect();
    let index = make_index_with_chain(&names);

    let mut entries: Vec<NamespaceEntry> = Vec::new();
    let mut truncated: Vec<WalkSkip> = Vec::new();
    index.walk_into(&mut entries, &mut truncated);

    assert_eq!(truncated.len(), 1, "exactly one WalkSkip expected at the depth cap; got {:?}", truncated);
    let skip = &truncated[0];
    assert_eq!(skip.reason, "depth_cap_reached(128)");
    assert!(
        skip.path.contains("d127") || skip.path.contains("d128"),
        "skip path should mention the cap-hitting dir; got: {}",
        skip.path
    );
    assert!(
        entries.len() >= MAX_TREE_DEPTH,
        "expected at least {} entries before truncation; got {}",
        MAX_TREE_DEPTH,
        entries.len()
    );
}

#[test]
fn walk_dir_drec_cycle_emits_walk_skip() {
    const A_ID: u64 = APFS_ROOT_DIR_OID + 1;
    const B_ID: u64 = APFS_ROOT_DIR_OID + 2;

    let mut drec: HashMap<u64, Vec<DrecChild>> = HashMap::new();
    drec.entry(APFS_ROOT_DIR_OID).or_default().push(dir_child("A", A_ID));
    drec.entry(A_ID).or_default().push(dir_child("B", B_ID));
    drec.entry(B_ID).or_default().push(dir_child("loop", A_ID));

    let index = empty_index(drec);
    let mut entries: Vec<NamespaceEntry> = Vec::new();
    let mut truncated: Vec<WalkSkip> = Vec::new();
    index.walk_into(&mut entries, &mut truncated);

    assert_eq!(truncated.len(), 1, "exactly one cycle WalkSkip expected; got {:?}", truncated);
    let skip = &truncated[0];
    assert!(skip.reason.contains("drec_cycle"), "reason should mention cycle; got: {}", skip.reason);
    assert!(
        skip.reason.contains(&format!("file_id={}", A_ID)),
        "reason should mention the cyclic file_id; got: {}",
        skip.reason
    );
}

#[test]
fn walk_emits_children_before_their_directory() {
    let mut drec: HashMap<u64, Vec<DrecChild>> = HashMap::new();
    drec.entry(APFS_ROOT_DIR_OID).or_default().push(dir_child("docs", 10));
    drec.entry(10).or_default().push(DrecChild { name: "a.txt".to_string(), file_id: 11, entry_type: DT_REG });
    let inode = InodeBody { dstream: Some(DstreamFields { size: 77, ..make_dstream(4096) }), ..make_inode(None, None) };
    let mut index = empty_index(drec);
    index.inode_by_id.insert(11, &inode);
    let mut entries = Vec::new();
    let mut truncated = Vec::new();
    index.walk_into(&mut entries, &mut truncated);
    assert!(truncated.is_empty());
    // A directory's subtree is emitted before the directory itself.
    assert_eq!(entries.len(), 2);
    assert_eq!(entries[0].path, "docs/a.txt");
    assert_eq!(entries[0].entry_kind, EntryKind::File);
    assert_eq!(entries[0].logical_size, 77);
    assert_eq!(entries[0].allocated_size, Some(4096));
    assert_eq!(entries[1].path, "docs");
    assert_eq!(entries[1].entry_kind, EntryKind::Dir);
}

#[test]
fn aggregates_cover_every_directory_in_path_order() {
    let entries = vec![
        NamespaceEntry {
            path: "d".into(),
            entry_kind: EntryKind::Dir,
            file_id: 5,
            logical_size: 0,
            symlink_target: None,
            allocated_size: Some(0),
        },
        file("d/x", 6, 10, Some(16)),
        file("d/e/y", 7, 20, Some(32)),
        file("z", 8, 1, Some(4)),
    ];
    let aggregates = build_aggregates(&entries);
    let paths: Vec<&str> = aggregates.iter().map(|a| a.path.as_str()).collect();
    // Only directories that appear as entries (and the root) get a row.
    assert_eq!(paths, vec![".", "d"]);
    assert_eq!(aggregates[0].unique_inode_logical_total, 31);
    assert_eq!(aggregates[0].unique_inode_allocated_total, Some(52));
    assert_eq!(aggregates[0].contributing_file_ids, vec![6, 7, 8]);
    assert_eq!(aggregates[1].unique_inode_logical_total, 30);
    assert_eq!(aggregates[1].contributing_file_ids, vec![6, 7]);
}

#[test]
fn hex_to_vec_decodes_pairs_and_refuses_bad_digits() {
    assert_eq!(hex_to_vec("00ffA1"), Some(vec![0x00, 0xff, 0xa1]));
    assert_eq!(hex_to_vec("abc"), None);
    assert_eq!(hex_to_vec("zz"), None);
    assert_eq!(hex_to_vec(""), Some(vec![]));
}
