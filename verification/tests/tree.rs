use apfs_fastindex::ext_summary::{extension_of, metric_value, ExtSummary, Metric};
use apfs_fastindex::namespace::{EntryKind, NamespaceEntry};
use apfs_fastindex::tree::{path_segments, Tree, NODE_INVALID};

fn entry(path: &str, kind: EntryKind, logical: u64, allocated: Option<u64>) -> NamespaceEntry {
    NamespaceEntry {
        path: path.into(),
        entry_kind: kind,
        file_id: 0,
        logical_size: logical,
        symlink_target: None,
        allocated_size: allocated,
    }
}

#[test]
fn tree_build_handles_nested_paths() {
    let entries = vec![
        entry("a", EntryKind::Dir, 0, Some(0)),
        entry("a/b", EntryKind::Dir, 0, Some(0)),
        entry("a/b/file.txt", EntryKind::File, 100, Some(120)),
        entry("a/b/other.txt", EntryKind::File, 50, Some(64)),
        entry("a/c", EntryKind::File, 200, Some(256)),
    ];
    let tree = Tree::build(&entries);
    assert_eq!(tree.nodes.len(), 6);
    let root = &tree.nodes[0];
    assert_eq!(root.value_logical, 100 + 50 + 200);
    assert_eq!(root.value_allocated, Some(120 + 64 + 256));
    assert_eq!(root.item_count, 3);
}

#[test]
fn tree_allocated_collapses_on_none() {
    let entries = vec![
        entry("a", EntryKind::Dir, 0, Some(0)),
        entry("a/sparse.bin", EntryKind::File, 1_000_000, None),
        entry("a/normal.bin", EntryKind::File, 100, Some(120)),
    ];
    let tree = Tree::build(&entries);
    let a_idx = tree.node_index_for_path("a");
    assert_ne!(a_idx, NODE_INVALID);
    let a = &tree.nodes[a_idx as usize];
    assert_eq!(a.value_allocated, None);
    assert_eq!(a.value_logical, 1_000_100);
}

#[test]
fn tree_root_path_lookup() {
    let entries = vec![entry("file.txt", EntryKind::File, 10, Some(16))];
    let tree = Tree::build(&entries);
    assert_eq!(tree.node_index_for_path(""), 0);
    assert_eq!(tree.node_index_for_path("/"), 0);
    assert_ne!(tree.node_index_for_path("file.txt"), NODE_INVALID);
    assert_eq!(tree.node_index_for_path("nonexistent"), NODE_INVALID);
}

#[test]
fn tree_creates_missing_parents_and_round_trips_paths() {
    let entries = vec![
        entry("x/y/z.txt", EntryKind::File, 7, Some(8)),
        entry("x/w", EntryKind::Symlink, 3, Some(0)),
    ];
    let tree = Tree::build(&entries);
    // root, x, y, z.txt, w
    assert_eq!(tree.nodes.len(), 5);
    let z = tree.node_index_for_path("/x/y/z.txt");
    assert_ne!(z, NODE_INVALID);
    assert_eq!(tree.compute_path(z), "x/y/z.txt");
    assert_eq!(tree.compute_path(0), "");
    let x = tree.node_index_for_path("x");
    assert_eq!(tree.nodes[x as usize].kind, EntryKind::Dir);
    assert_eq!(tree.children_of(x).len(), 2);
    assert_eq!(tree.nodes[x as usize].item_count, 2);
    assert_eq!(tree.nodes[0].value_logical, 10);
    assert_eq!(tree.nodes[0].value_allocated, Some(8));
}

#[test]
fn tree_logical_totals_saturate() {
    let entries = vec![
        entry("a", EntryKind::File, u64::MAX - 1, Some(1)),
        entry("b", EntryKind::File, 5, Some(u64::MAX)),
    ];
    let tree = Tree::build(&entries);
    assert_eq!(tree.nodes[0].value_logical, u64::MAX);
    assert_eq!(tree.nodes[0].value_allocated, Some(u64::MAX));
}

#[test]
fn path_segments_skip_empty_pieces() {
    assert_eq!(path_segments("/a//b/"), vec!["a".to_string(), "b".to_string()]);
    assert!(path_segments("").is_empty());
}

#[test]
fn ext_summary_groups_by_lowercase_extension() {
    let entries = vec![
        entry("a", EntryKind::Dir, 0, Some(0)),
        entry("a/Photo.JPG", EntryKind::File, 1000, Some(1000)),
        entry("a/another.jpg", EntryKind::File, 2000, Some(2000)),
        entry("a/code.rs", EntryKind::File, 500, Some(500)),
        entry("a/no-ext", EntryKind::File, 250, Some(250)),
        entry("a/.hidden", EntryKind::File, 100, Some(100)),
    ];
    let tree = Tree::build(&entries);
    let summary = ExtSummary::build(&tree, 0, Metric::Logical);
    assert_eq!(summary.rows.len(), 3);
    assert_eq!(summary.rows[0].ext, ".jpg");
    assert_eq!(summary.rows[0].value_logical, 3000);
    assert_eq!(summary.rows[0].file_count, 2);
    assert_eq!(summary.rows[1].ext, ".rs");
    assert_eq!(summary.rows[2].ext, "(no ext)");
    assert_eq!(summary.total_value, 1000 + 2000 + 500 + 250 + 100);
}

#[test]
fn ext_summary_allocated_metric_tracks_unclaimed() {
    let entries = vec![
        entry("big.iso", EntryKind::File, 10, None),
        entry("small.iso", EntryKind::File, 20, Some(30)),
        entry("link", EntryKind::Symlink, 4, Some(0)),
    ];
    let tree = Tree::build(&entries);
    let summary = ExtSummary::build(&tree, 0, Metric::Allocated);
    assert!(summary.any_unclaimed);
    // Both rows weigh 0 under the allocated metric: ties go by name.
    assert_eq!(summary.rows[0].ext, "(symlink)");
    assert_eq!(summary.rows[1].ext, ".iso");
    assert_eq!(summary.rows[1].value_allocated, None);
    assert_eq!(summary.rows[1].value_logical, 30);
    assert_eq!(summary.rows[1].file_count, 2);
    assert_eq!(summary.total_value, 0);
    assert_eq!(metric_value(&tree.nodes[0], Metric::Logical), 34);
    assert_eq!(metric_value(&tree.nodes[0], Metric::Allocated), 0);
}

#[test]
fn extension_of_handles_edge_dots_and_kinds() {
    assert_eq!(extension_of("archive.tar.GZ", EntryKind::File), ".gz");
    assert_eq!(extension_of("trailing.", EntryKind::File), "(no ext)");
    assert_eq!(extension_of(".profile", EntryKind::File), "(no ext)");
    assert_eq!(extension_of("README", EntryKind::File), "(no ext)");
    assert_eq!(extension_of("x.txt", EntryKind::Symlink), "(symlink)");
    assert_eq!(extension_of("x.txt", EntryKind::Other), "(other)");
    assert_eq!(extension_of("x.txt", EntryKind::Dir), "(dir)");
}
