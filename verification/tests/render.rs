use apfs_fastindex::ext_summary::Metric;
use apfs_fastindex::namespace::EntryKind;
use apfs_fastindex::render::{
    compute_fill, fill_for_file, fnv1a_hash, palette_lookup, Fill, FILL_DIR, FILL_NO_EXTENSION,
    FILL_OTHER, FILL_SYMLINK, FILL_UNCLAIMED,
};
use apfs_fastindex::tree::TreeNode;

fn node(name: &str, kind: EntryKind, value_allocated: Option<u64>) -> TreeNode {
    TreeNode {
        name: name.to_string(),
        kind,
        parent: None,
        children_start: 0,
        children_count: 0,
        logical_size: 10,
        allocated_size: value_allocated,
        symlink_target: None,
        value_logical: 10,
        value_allocated,
        item_count: 1,
    }
}

#[test]
fn fnv1a_known_values() {
    assert_eq!(fnv1a_hash(b""), 0x811c9dc5);
    assert_eq!(fnv1a_hash(b"a"), 0xe40c292c);
    assert_eq!(fnv1a_hash(b"foobar"), 0xbf9cf968);
}

#[test]
fn palette_is_case_insensitive() {
    assert_eq!(palette_lookup(b"txt"), Some(0xa0c4ff));
    assert_eq!(palette_lookup(b"TXT"), Some(0xa0c4ff));
    assert_eq!(palette_lookup(b"Md"), Some(0xa0c4ff));
    assert_eq!(palette_lookup(b"c"), Some(0xbdb2ff));
    assert_eq!(palette_lookup(b"HPP"), Some(0xbdb2ff));
    assert_eq!(palette_lookup(b"JPEG"), Some(0x8ecae6));
    assert_eq!(palette_lookup(b"dylib"), Some(0xffafcc));
    assert_eq!(palette_lookup(b"xyz"), None);
}

#[test]
fn palette_skips_long_extensions() {
    // Longer than eight bytes: never looked up, even when listed.
    assert_eq!(palette_lookup(b"framework"), None);
    assert_eq!(palette_lookup(b"abcdefghi"), None);
}

#[test]
fn file_fill_follows_extension() {
    assert_eq!(fill_for_file(b"notes.txt"), Fill::Rgb(0xa0c4ff));
    assert_eq!(fill_for_file(b"a.b.PNG"), Fill::Rgb(0x8ecae6));
    assert_eq!(fill_for_file(b"Makefile"), Fill::Rgb(FILL_NO_EXTENSION));
    assert_eq!(fill_for_file(b".bashrc"), Fill::Rgb(FILL_NO_EXTENSION));
    assert_eq!(fill_for_file(b"trailing."), Fill::Rgb(FILL_NO_EXTENSION));
    assert_eq!(fill_for_file(b"data.xyz"), Fill::HashedExtension(fnv1a_hash(b"xyz")));
    assert_eq!(fill_for_file(b"App.Framework"), Fill::HashedExtension(fnv1a_hash(b"Framework")));
}

#[test]
fn compute_fill_by_kind_and_metric() {
    let f = node("x.rs", EntryKind::File, Some(4096));
    assert_eq!(compute_fill(&f, Metric::Logical), Fill::Rgb(0xffc09f));
    assert_eq!(compute_fill(&f, Metric::Allocated), Fill::Rgb(0xffc09f));
    let unclaimed = node("x.rs", EntryKind::File, None);
    assert_eq!(compute_fill(&unclaimed, Metric::Allocated), Fill::Rgb(FILL_UNCLAIMED));
    assert_eq!(compute_fill(&unclaimed, Metric::Logical), Fill::Rgb(0xffc09f));
    assert_eq!(compute_fill(&node("d", EntryKind::Dir, Some(0)), Metric::Logical), Fill::Rgb(FILL_DIR));
    assert_eq!(compute_fill(&node("l", EntryKind::Symlink, Some(0)), Metric::Logical), Fill::Rgb(FILL_SYMLINK));
    assert_eq!(compute_fill(&node("o", EntryKind::Other, Some(0)), Metric::Logical), Fill::Rgb(FILL_OTHER));
    let dir_unclaimed = node("d", EntryKind::Dir, None);
    assert_eq!(compute_fill(&dir_unclaimed, Metric::Allocated), Fill::Rgb(FILL_UNCLAIMED));
}
