use apfs_fastindex::block_io::{put_u32, put_u64, resign_block};
use apfs_fastindex::object::{OBJECT_TYPE_BTREE, OBJECT_TYPE_OMAP, OBJ_HEADER_SIZE, OBJ_PHYSICAL};
use apfs_fastindex::omap::{
    phys_flag_hard_stop_reason, value_flag_hard_stop_reason, OmapResolver, OMAP_KEY_SIZE, OMAP_MANUALLY_MANAGED,
    OMAP_PHYS_ENCRYPTING, OMAP_VAL_CRYPTO_GENERATION, OMAP_VAL_DELETED, OMAP_VAL_ENCRYPTED, OMAP_VAL_NOHEADER,
    OMAP_VAL_SAVED, OMAP_VAL_SIZE,
};
use apfs_fastindex::ScanError;

const BLOCK_SIZE: usize = 4096;

fn make_leaf_omap_root(paddr: u64, mappings: &[(u64, u64, u32, u32, u64)]) -> Vec<u8> {
    let mut block = vec![0u8; BLOCK_SIZE];
    let nkeys = mappings.len() as u32;
    put_u64(&mut block, 0x08, paddr);
    put_u64(&mut block, 0x10, 14);
    put_u32(&mut block, 0x18, OBJ_PHYSICAL | OBJECT_TYPE_BTREE);
    put_u32(&mut block, 0x1c, OBJECT_TYPE_OMAP);
    let bt_flags: u16 = 0x0001 | 0x0002 | 0x0004;
    let level: u16 = 0;
    block[0x20..0x22].copy_from_slice(&bt_flags.to_le_bytes());
    block[0x22..0x24].copy_from_slice(&level.to_le_bytes());
    block[0x24..0x28].copy_from_slice(&nkeys.to_le_bytes());
    let toc_len: u16 = (nkeys as u16) * 4;
    block[0x28..0x2a].copy_from_slice(&0u16.to_le_bytes());
    block[0x2a..0x2c].copy_from_slice(&toc_len.to_le_bytes());
    let data_offset = OBJ_HEADER_SIZE + 24;
    let toc_offset = data_offset;
    let key_area_offset = toc_offset + toc_len as usize;
    let value_area_end = BLOCK_SIZE - 40;
    for (index, (oid, xid, _flags, _size, _paddr)) in mappings.iter().enumerate() {
        let entry_off = toc_offset + 4 * index;
        let k_off = (index * OMAP_KEY_SIZE) as u16;
        let v_off = ((index + 1) * OMAP_VAL_SIZE) as u16;
        block[entry_off..entry_off + 2].copy_from_slice(&k_off.to_le_bytes());
        block[entry_off + 2..entry_off + 4].copy_from_slice(&v_off.to_le_bytes());
        let key_start = key_area_offset + k_off as usize;
        block[key_start..key_start + 8].copy_from_slice(&oid.to_le_bytes());
        block[key_start + 8..key_start + 16].copy_from_slice(&xid.to_le_bytes());
        let value_start = value_area_end - v_off as usize;
        let (_, _, flags, size, value_paddr) = mappings[index];
        block[value_start..value_start + 4].copy_from_slice(&flags.to_le_bytes());
        block[value_start + 4..value_start + 8].copy_from_slice(&size.to_le_bytes());
        block[value_start + 8..value_start + 16].copy_from_slice(&value_paddr.to_le_bytes());
    }
    let info_off = BLOCK_SIZE - 40;
    block[info_off + 0x10..info_off + 0x14].copy_from_slice(&(OMAP_KEY_SIZE as u32).to_le_bytes());
    block[info_off + 0x14..info_off + 0x18].copy_from_slice(&(OMAP_VAL_SIZE as u32).to_le_bytes());
    resign_block(&mut block);
    block
}

fn make_omap_phys_with_flags(omap_paddr: u64, tree_root_paddr: u64, phys_flags: u32) -> Vec<u8> {
    let mut block = vec![0u8; BLOCK_SIZE];
    put_u64(&mut block, 0x08, omap_paddr);
    put_u64(&mut block, 0x10, 14);
    put_u32(&mut block, 0x18, OBJ_PHYSICAL | OBJECT_TYPE_OMAP);
    put_u32(&mut block, 0x1c, 0);
    put_u32(&mut block, 0x20, phys_flags);
    put_u32(&mut block, 0x24, 0);
    put_u32(&mut block, 0x28, OBJ_PHYSICAL | OBJECT_TYPE_BTREE);
    put_u32(&mut block, 0x2c, OBJ_PHYSICAL | OBJECT_TYPE_BTREE);
    put_u64(&mut block, 0x30, tree_root_paddr);
    put_u64(&mut block, 0x38, 0);
    put_u64(&mut block, 0x40, 0);
    put_u64(&mut block, 0x48, 0);
    put_u64(&mut block, 0x50, 0);
    resign_block(&mut block);
    block
}

fn build_image_with_phys_flags(
    omap_paddr: u64,
    tree_root_paddr: u64,
    mappings: &[(u64, u64, u32, u32, u64)],
    phys_flags: u32,
) -> Vec<u8> {
    let total_blocks = (omap_paddr.max(tree_root_paddr) as usize) + 1;
    let mut image = vec![0u8; total_blocks * BLOCK_SIZE];
    let omap = make_omap_phys_with_flags(omap_paddr, tree_root_paddr, phys_flags);
    let start = (omap_paddr as usize) * BLOCK_SIZE;
    image[start..start + BLOCK_SIZE].copy_from_slice(&omap);
    let leaf = make_leaf_omap_root(tree_root_paddr, mappings);
    let start = (tree_root_paddr as usize) * BLOCK_SIZE;
    image[start..start + BLOCK_SIZE].copy_from_slice(&leaf);
    image
}

fn build_image(omap_paddr: u64, tree_root_paddr: u64, mappings: &[(u64, u64, u32, u32, u64)]) -> Vec<u8> {
    build_image_with_phys_flags(omap_paddr, tree_root_paddr, mappings, OMAP_MANUALLY_MANAGED)
}

#[test]
fn lookup_returns_largest_xid_at_or_below_max() {
    let mappings = vec![
        (100u64, 5u64, 0u32, BLOCK_SIZE as u32, 1000u64),
        (100, 10, 0, BLOCK_SIZE as u32, 2000),
        (100, 20, 0, BLOCK_SIZE as u32, 3000),
    ];
    let image = build_image(2, 3, &mappings);
    let resolver = OmapResolver::open(&image, BLOCK_SIZE, 2).expect("omap opens");
    let value = resolver.lookup(&image, BLOCK_SIZE, 100, 15).expect("lookup ok").expect("entry returned");
    assert_eq!(value.oid, 100);
    assert_eq!(value.xid, 10);
    assert_eq!(value.paddr, 2000);
}

#[test]
fn lookup_returns_none_when_oid_missing() {
    let mappings = vec![(100u64, 5u64, 0u32, BLOCK_SIZE as u32, 1000u64)];
    let image = build_image(2, 3, &mappings);
    let resolver = OmapResolver::open(&image, BLOCK_SIZE, 2).expect("omap opens");
    let value = resolver.lookup(&image, BLOCK_SIZE, 200, 100).expect("lookup ok");
    assert!(value.is_none());
}

#[test]
fn lookup_rejects_encrypted_value() {
    let mappings = vec![(100u64, 5u64, OMAP_VAL_ENCRYPTED, BLOCK_SIZE as u32, 1000u64)];
    let image = build_image(2, 3, &mappings);
    let resolver = OmapResolver::open(&image, BLOCK_SIZE, 2).expect("omap opens");
    let err = resolver.lookup(&image, BLOCK_SIZE, 100, 100).expect_err("encrypted value forces a hard stop");
    assert!(matches!(err, ScanError::InvalidObject(reason) if reason.contains("OMAP_VAL_ENCRYPTED")));
}

#[test]
fn lookup_skips_deleted_value() {
    let mappings = vec![(100u64, 5u64, OMAP_VAL_DELETED, BLOCK_SIZE as u32, 1000u64)];
    let image = build_image(2, 3, &mappings);
    let resolver = OmapResolver::open(&image, BLOCK_SIZE, 2).expect("omap opens");
    let value = resolver.lookup(&image, BLOCK_SIZE, 100, 100).expect("lookup ok");
    assert!(value.is_none(), "deleted entries are filtered from lookup");
}

#[test]
fn lookup_returns_none_when_max_xid_below_smallest() {
    let mappings = vec![(100u64, 50u64, 0u32, BLOCK_SIZE as u32, 1000u64)];
    let image = build_image(2, 3, &mappings);
    let resolver = OmapResolver::open(&image, BLOCK_SIZE, 2).expect("omap opens");
    let value = resolver.lookup(&image, BLOCK_SIZE, 100, 10).expect("lookup ok");
    assert!(value.is_none(), "max_xid below smallest mapping must not match");
}

#[test]
fn summarize_records_flagged_values() {
    let mappings = vec![
        (100u64, 5u64, OMAP_VAL_NOHEADER, BLOCK_SIZE as u32, 1000u64),
        (101, 5, OMAP_VAL_DELETED, BLOCK_SIZE as u32, 1001),
    ];
    let image = build_image(2, 3, &mappings);
    let resolver = OmapResolver::open(&image, BLOCK_SIZE, 2).expect("omap opens");
    let summary = resolver.summarize(&image, BLOCK_SIZE, 100, 8).expect("summary ok");
    assert_eq!(summary.mapping_count, 2);
    assert!(summary.flagged_values.iter().any(|line| line.starts_with("noheader: ")));
    assert!(summary.flagged_values.iter().any(|line| line.starts_with("deleted: ")));
}

#[test]
fn summarize_counts_nodes_and_samples_in_walk_order() {
    let mappings = vec![
        (100u64, 5u64, 0u32, BLOCK_SIZE as u32, 1000u64),
        (100, 9, OMAP_VAL_SAVED, BLOCK_SIZE as u32, 1001),
        (101, 30, 0, BLOCK_SIZE as u32, 1002),
    ];
    let image = build_image(2, 3, &mappings);
    let resolver = OmapResolver::open(&image, BLOCK_SIZE, 2).unwrap();
    assert_eq!(resolver.tree_root_paddr, 3);
    let summary = resolver.summarize(&image, BLOCK_SIZE, 20, 1).unwrap();
    assert_eq!(summary.leaf_node_count, 1);
    assert_eq!(summary.index_node_count, 0);
    assert_eq!(summary.mapping_count, 2);
    assert_eq!(summary.max_observed_xid, 9);
    assert_eq!(summary.flagged_values, vec!["saved: 1".to_string()]);
    assert_eq!(summary.sample_mappings.len(), 1);
    assert_eq!(summary.sample_mappings[0].paddr, 1000);
}

#[test]
fn lookup_exact_xid_match_is_returned() {
    let mappings = vec![(7u64, 3u64, 0u32, BLOCK_SIZE as u32, 77u64), (8, 3, 0, BLOCK_SIZE as u32, 88)];
    let image = build_image(2, 3, &mappings);
    let resolver = OmapResolver::open(&image, BLOCK_SIZE, 2).unwrap();
    let value = resolver.lookup(&image, BLOCK_SIZE, 8, 3).unwrap().unwrap();
    assert_eq!((value.oid, value.xid, value.paddr), (8, 3, 88));
}

#[test]
fn open_rejects_encrypting_object_map() {
    let mappings = vec![(100u64, 5u64, 0u32, BLOCK_SIZE as u32, 1000u64)];
    let image = build_image_with_phys_flags(2, 3, &mappings, OMAP_PHYS_ENCRYPTING);
    let err = OmapResolver::open(&image, BLOCK_SIZE, 2).expect_err("encrypting omap is refused");
    assert!(matches!(err, ScanError::InvalidObject(reason) if reason.contains("OMAP_ENCRYPTING")));
}

#[test]
fn open_rejects_block_past_image_end() {
    let image = vec![0u8; BLOCK_SIZE];
    let err = OmapResolver::open(&image, BLOCK_SIZE, 5).expect_err("read past end");
    assert!(matches!(err, ScanError::ShortRead { block_address: 5, expected: 4096, actual: 0 }));
}

#[test]
fn flag_reasons_follow_priority_order() {
    assert_eq!(value_flag_hard_stop_reason(0), None);
    assert_eq!(value_flag_hard_stop_reason(OMAP_VAL_DELETED | OMAP_VAL_SAVED), None);
    assert_eq!(
        value_flag_hard_stop_reason(OMAP_VAL_NOHEADER | OMAP_VAL_ENCRYPTED),
        Some("OMAP_VAL_ENCRYPTED")
    );
    assert_eq!(value_flag_hard_stop_reason(OMAP_VAL_CRYPTO_GENERATION), Some("OMAP_VAL_CRYPTO_GENERATION"));
    assert_eq!(value_flag_hard_stop_reason(0x100), Some("unknown OMAP value flag bits"));
    assert_eq!(phys_flag_hard_stop_reason(OMAP_MANUALLY_MANAGED), None);
    assert_eq!(phys_flag_hard_stop_reason(0x40), Some("unknown OMAP phys flag bits"));
}
