use apfs_fastindex::block_io::{put_u16, put_u32};
use apfs_fastindex::btree::{BtreeEntry, BtreeNode, BTNODE_FIXED_KV_SIZE, BTNODE_LEAF, BTNODE_ROOT};
use apfs_fastindex::ScanError;

fn make_node(block: &[u8]) -> BtreeNode<'_> {
    BtreeNode {
        block,
        block_size: block.len(),
        flags: 0,
        level: 0,
        nkeys: 0,
        data_offset: 0,
        toc_offset: 0,
        toc_len: 0,
        key_area_offset: 0,
        value_area_end: block.len(),
        fixed_kv_size: false,
        is_root: false,
        is_leaf: true,
    }
}

#[test]
fn key_bytes_rejects_oob_len() {
    let block = vec![0u8; 64];
    let node = make_node(&block);
    let entry = BtreeEntry { key_offset: 60, key_len: Some(10), value_start: 0, value_len: Some(0) };
    let err = node.key_bytes(&entry, 0).expect_err("OOB k_len must fail-closed");
    assert!(matches!(err, ScanError::InvalidObject(_)));
}

#[test]
fn key_bytes_rejects_offset_overflow() {
    let block = vec![0u8; 64];
    let node = make_node(&block);
    let entry = BtreeEntry { key_offset: usize::MAX - 4, key_len: Some(10), value_start: 0, value_len: Some(0) };
    let err = node.key_bytes(&entry, 0).expect_err("offset overflow must fail-closed");
    assert!(matches!(err, ScanError::InvalidObject(_)));
}

#[test]
fn value_bytes_rejects_oob_len() {
    let block = vec![0u8; 64];
    let node = make_node(&block);
    let entry = BtreeEntry { key_offset: 0, key_len: Some(0), value_start: 60, value_len: Some(10) };
    let err = node.value_bytes(&entry, 0).expect_err("OOB v_len must fail-closed");
    assert!(matches!(err, ScanError::InvalidObject(_)));
}

#[test]
fn value_bytes_rejects_offset_overflow() {
    let block = vec![0u8; 64];
    let node = make_node(&block);
    let entry = BtreeEntry { key_offset: 0, key_len: Some(0), value_start: usize::MAX - 4, value_len: Some(10) };
    let err = node.value_bytes(&entry, 0).expect_err("offset overflow must fail-closed");
    assert!(matches!(err, ScanError::InvalidObject(_)));
}

#[test]
fn key_bytes_accepts_inbounds_variable() {
    let mut block = vec![0u8; 64];
    block[10..18].copy_from_slice(b"hello-rs");
    let node = make_node(&block);
    let entry = BtreeEntry { key_offset: 10, key_len: Some(8), value_start: 0, value_len: Some(0) };
    let slice = node.key_bytes(&entry, 0).expect("in-bounds key");
    assert_eq!(slice, b"hello-rs");
}

#[test]
fn key_bytes_accepts_inbounds_fixed_size() {
    let mut block = vec![0u8; 64];
    block[20..28].copy_from_slice(b"fixedkey");
    let node = make_node(&block);
    let entry = BtreeEntry { key_offset: 20, key_len: None, value_start: 0, value_len: None };
    let slice = node.key_bytes(&entry, 8).expect("in-bounds fixed key");
    assert_eq!(slice, b"fixedkey");
}

#[test]
fn value_bytes_accepts_inbounds_variable() {
    let mut block = vec![0u8; 64];
    block[40..52].copy_from_slice(b"value-bytes!");
    let node = make_node(&block);
    let entry = BtreeEntry { key_offset: 0, key_len: Some(0), value_start: 40, value_len: Some(12) };
    let slice = node.value_bytes(&entry, 0).expect("in-bounds value");
    assert_eq!(slice, b"value-bytes!");
}

/// A 512-byte leaf with one variable-size entry: key "abc" at key-area
/// offset 0, value "xyz" 3 bytes before the end of the value area.
fn variable_leaf(root: bool) -> Vec<u8> {
    let mut block = vec![0u8; 512];
    let flags = BTNODE_LEAF | if root { BTNODE_ROOT } else { 0 };
    put_u16(&mut block, 0x20, flags);
    put_u16(&mut block, 0x22, 0);
    put_u32(&mut block, 0x24, 1);
    put_u16(&mut block, 0x28, 0);
    put_u16(&mut block, 0x2a, 8);
    // TOC entry at 56: k_off 0, k_len 3, v_off 3, v_len 3.
    put_u16(&mut block, 56, 0);
    put_u16(&mut block, 58, 3);
    put_u16(&mut block, 60, 3);
    put_u16(&mut block, 62, 3);
    block[64..67].copy_from_slice(b"abc");
    let value_end = if root { 512 - 40 } else { 512 };
    block[value_end - 3..value_end].copy_from_slice(b"xyz");
    block
}

#[test]
fn parse_and_entry_decode_a_variable_leaf() {
    let block = variable_leaf(false);
    let node = BtreeNode::parse(&block, 512).expect("node parses");
    assert!(node.is_leaf);
    assert!(!node.is_root);
    assert_eq!(node.toc_offset, 56);
    assert_eq!(node.key_area_offset, 64);
    assert_eq!(node.value_area_end, 512);
    let entry = node.entry(0).expect("entry 0");
    assert_eq!(entry, BtreeEntry { key_offset: 64, key_len: Some(3), value_start: 509, value_len: Some(3) });
    assert_eq!(node.key_bytes(&entry, 0).unwrap(), b"abc");
    assert_eq!(node.value_bytes(&entry, 0).unwrap(), b"xyz");
    assert!(matches!(node.entry(1), Err(ScanError::InvalidObject(_))));
}

#[test]
fn root_node_value_area_ends_before_info_trailer() {
    let block = variable_leaf(true);
    let node = BtreeNode::parse(&block, 512).expect("root parses");
    assert!(node.is_root);
    assert_eq!(node.value_area_end, 472);
    let entry = node.entry(0).unwrap();
    assert_eq!(node.value_bytes(&entry, 0).unwrap(), b"xyz");
}

#[test]
fn fixed_size_entry_uses_caller_sizes() {
    let mut block = vec![0u8; 256];
    put_u16(&mut block, 0x20, BTNODE_LEAF | BTNODE_FIXED_KV_SIZE);
    put_u32(&mut block, 0x24, 1);
    put_u16(&mut block, 0x28, 0);
    put_u16(&mut block, 0x2a, 4);
    put_u16(&mut block, 56, 0);
    put_u16(&mut block, 58, 16);
    let node = BtreeNode::parse(&block, 256).unwrap();
    let entry = node.entry(0).unwrap();
    assert_eq!(entry, BtreeEntry { key_offset: 60, key_len: None, value_start: 240, value_len: None });
    assert_eq!(node.key_bytes(&entry, 16).unwrap().len(), 16);
    assert_eq!(node.value_bytes(&entry, 16).unwrap().len(), 16);
}

#[test]
fn parse_rejects_overlapping_key_area_and_short_block() {
    let mut block = vec![0u8; 128];
    put_u16(&mut block, 0x28, 100);
    put_u16(&mut block, 0x2a, 100);
    assert!(matches!(BtreeNode::parse(&block, 128), Err(ScanError::InvalidObject(_))));
    let small = vec![0u8; 64];
    assert!(matches!(BtreeNode::parse(&small, 128), Err(ScanError::InvalidObject(_))));
}
