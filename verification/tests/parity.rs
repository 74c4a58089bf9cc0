use apfs_fastindex::namespace::{EntryKind, NamespaceEntry};
use apfs_fastindex::parity::{compare_namespace_shapes, FieldValue};

fn ent(path: &str, kind: EntryKind, logical: u64, allocated: Option<u64>) -> NamespaceEntry {
    NamespaceEntry {
        path: path.into(),
        entry_kind: kind,
        file_id: 0,
        logical_size: logical,
        symlink_target: None,
        allocated_size: allocated,
    }
}

#[test]
fn ex28_identical_slices_diff_clean() {
    let a = vec![ent("a.txt", EntryKind::File, 100, Some(4096)), ent("b.txt", EntryKind::File, 200, Some(8192))];
    let diff = compare_namespace_shapes(&a, &a);
    assert!(diff.is_identical());
    assert_eq!(diff.symmetric_difference(), 0);
    assert_eq!(diff.left_count, 2);
    assert_eq!(diff.right_count, 2);
}

#[test]
fn ex28_symmetric_difference_lists_extra_paths_on_each_side() {
    let a = vec![
        ent("ordinary.txt", EntryKind::File, 100, Some(4096)),
        ent("only_in_a.txt", EntryKind::File, 200, Some(8192)),
    ];
    let b = vec![
        ent("ordinary.txt", EntryKind::File, 100, Some(4096)),
        ent("only_in_b.txt", EntryKind::File, 300, Some(12288)),
    ];
    let diff = compare_namespace_shapes(&a, &b);
    assert!(!diff.is_identical());
    assert_eq!(diff.only_in_left, vec!["only_in_a.txt".to_string()]);
    assert_eq!(diff.only_in_right, vec!["only_in_b.txt".to_string()]);
    assert_eq!(diff.symmetric_difference(), 2);
    assert!(diff.mismatches.is_empty());
}

#[test]
fn ex28_logical_size_disagreement_surfaces_as_mismatch() {
    let a = vec![ent("file.txt", EntryKind::File, 100, Some(4096))];
    let b = vec![ent("file.txt", EntryKind::File, 200, Some(4096))];
    let diff = compare_namespace_shapes(&a, &b);
    assert!(!diff.is_identical());
    assert_eq!(diff.mismatches.len(), 1);
    let m = &diff.mismatches[0];
    assert_eq!(m.path, "file.txt");
    assert_eq!(m.field, "logical_size");
    assert_eq!(m.left, FieldValue::Number(100));
    assert_eq!(m.right, FieldValue::Number(200));
}

#[test]
fn ex28_allocated_and_real_diverge_independently() {
    let a = vec![ent("file.txt", EntryKind::File, 100, Some(4096))];
    let b = vec![ent("file.txt", EntryKind::File, 100, Some(8192))];
    let diff = compare_namespace_shapes(&a, &b);
    assert_eq!(diff.mismatches.len(), 1);
    assert_eq!(diff.mismatches[0].field, "allocated_size");
}

#[test]
fn ex28_symlink_target_compared() {
    let mut a_entry = ent("link", EntryKind::Symlink, 5, Some(0));
    a_entry.symlink_target = Some("target_a".into());
    let mut b_entry = ent("link", EntryKind::Symlink, 5, Some(0));
    b_entry.symlink_target = Some("target_b".into());
    let diff = compare_namespace_shapes(&[a_entry], &[b_entry]);
    assert_eq!(diff.mismatches.len(), 1);
    assert_eq!(diff.mismatches[0].field, "symlink_target");
    assert_eq!(diff.mismatches[0].left, FieldValue::Text("target_a".to_string()));
}

#[test]
fn ex28_file_id_divergence_is_intentionally_ignored() {
    let mut a = ent("file.txt", EntryKind::File, 100, Some(4096));
    let mut b = ent("file.txt", EntryKind::File, 100, Some(4096));
    a.file_id = 42;
    b.file_id = 99;
    let diff = compare_namespace_shapes(&[a], &[b]);
    assert!(diff.is_identical());
}

#[test]
fn ex28_empty_slices_diff_clean() {
    let diff = compare_namespace_shapes(&[], &[]);
    assert!(diff.is_identical());
    assert_eq!(diff.left_count, 0);
    assert_eq!(diff.right_count, 0);
}

#[test]
fn parity_orders_paths_and_fields() {
    let a = vec![
        ent("z", EntryKind::File, 1, None),
        ent("b", EntryKind::Dir, 0, Some(0)),
        ent("a", EntryKind::File, 1, Some(4096)),
        ent("y", EntryKind::File, 1, None),
    ];
    let b = vec![
        ent("a", EntryKind::File, 2, None),
        ent("b", EntryKind::File, 0, Some(0)),
        ent("c", EntryKind::File, 0, Some(0)),
    ];
    let diff = compare_namespace_shapes(&a, &b);
    assert_eq!(diff.only_in_left, vec!["y".to_string(), "z".to_string()]);
    assert_eq!(diff.only_in_right, vec!["c".to_string()]);
    let rows: Vec<(&str, &str)> = diff.mismatches.iter().map(|m| (m.path.as_str(), m.field.as_str())).collect();
    assert_eq!(rows, vec![("a", "logical_size"), ("a", "allocated_size"), ("b", "entry_kind")]);
    assert_eq!(diff.mismatches[1].right, FieldValue::Null);
    assert_eq!(diff.mismatches[2].left, FieldValue::Kind(EntryKind::Dir));
}
