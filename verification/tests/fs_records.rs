use apfs_fastindex::block_io::{put_u32, put_u64, resign_block};
use apfs_fastindex::fs_record_body::{record_family_name, FS_OBJECT_ID_MASK, FS_RECORD_TYPE_SHIFT};
use apfs_fastindex::fs_records::{dump_fs_records, family_in_v1_namespace_scope, is_known_record_family};
use apfs_fastindex::object::{
OBJECT_TYPE_BTREE, OBJECT_TYPE_BTREE_NODE, OBJECT_TYPE_FSTREE, OBJECT_TYPE_OMAP, OBJ_HEADER_SIZE, OBJ_PHYSICAL,
};
use apfs_fastindex::omap::OmapResolver;
use apfs_fastindex::ScanError;

const BLOCK_SIZE: usize = 4096;
const BTNODE_ROOT: u16 = 0x0001;
const BTNODE_LEAF: u16 = 0x0002;
const BTNODE_FIXED_KV_SIZE: u16 = 0x0004;
const BTREE_INFO_SIZE: usize = 40;
const OMAP_MANUALLY_MANAGED: u32 = 0x0000_0001;

/// Build a single-leaf fixed-kv OMAP root holding `mappings`.
fn make_omap_leaf(paddr: u64, mappings: &[(u64, u64, u32, u32, u64)]) -> Vec<u8> {
    let mut block = vec![0u8; BLOCK_SIZE];
    let nkeys = mappings.len() as u32;
    put_u64(&mut block, 0x08, paddr);
    put_u64(&mut block, 0x10, 14);
    put_u32(&mut block, 0x18, OBJ_PHYSICAL | OBJECT_TYPE_BTREE);
    put_u32(&mut block, 0x1c, OBJECT_TYPE_OMAP);
    let bt_flags: u16 = BTNODE_ROOT | BTNODE_LEAF | BTNODE_FIXED_KV_SIZE;
    block[0x20..0x22].copy_from_slice(&bt_flags.to_le_bytes());
    block[0x22..0x24].copy_from_slice(&0u16.to_le_bytes());
    block[0x24..0x28].copy_from_slice(&nkeys.to_le_bytes());
    let toc_len: u16 = (nkeys as u16) * 4;
    block[0x28..0x2a].copy_from_slice(&0u16.to_le_bytes());
    block[0x2a..0x2c].copy_from_slice(&toc_len.to_le_bytes());
    let data_offset = OBJ_HEADER_SIZE + 24;
    let toc_offset = data_offset;
    let key_area_offset = toc_offset + toc_len as usize;
    let value_area_end = BLOCK_SIZE - BTREE_INFO_SIZE;
    let omap_key_size = 16usize;
    let omap_val_size = 16usize;
    for (index, (oid, xid, flags, size, val_paddr)) in mappings.iter().enumerate() {
        let entry_off = toc_offset + 4 * index;
        let k_off = (index * omap_key_size) as u16;
        let v_off = ((index + 1) * omap_val_size) as u16;
        block[entry_off..entry_off + 2].copy_from_slice(&k_off.to_le_bytes());
        block[entry_off + 2..entry_off + 4].copy_from_slice(&v_off.to_le_bytes());
        let key_start = key_area_offset + k_off as usize;
        block[key_start..key_start + 8].copy_from_slice(&oid.to_le_bytes());
        block[key_start + 8..key_start + 16].copy_from_slice(&xid.to_le_bytes());
        let value_start = value_area_end - v_off as usize;
        block[value_start..value_start + 4].copy_from_slice(&flags.to_le_bytes());
        block[value_start + 4..value_start + 8].copy_from_slice(&size.to_le_bytes());
        block[value_start + 8..value_start + 16].copy_from_slice(&val_paddr.to_le_bytes());
    }
    let info_off = BLOCK_SIZE - BTREE_INFO_SIZE;
    block[info_off + 0x10..info_off + 0x14]
        .copy_from_slice(&(omap_key_size as u32).to_le_bytes());
    block[info_off + 0x14..info_off + 0x18]
        .copy_from_slice(&(omap_val_size as u32).to_le_bytes());
    resign_block(&mut block);
    block
}

fn make_omap_phys(omap_paddr: u64, tree_root_paddr: u64) -> Vec<u8> {
    let mut block = vec![0u8; BLOCK_SIZE];
    put_u64(&mut block, 0x08, omap_paddr);
    put_u64(&mut block, 0x10, 14);
    put_u32(&mut block, 0x18, OBJ_PHYSICAL | OBJECT_TYPE_OMAP);
    put_u32(&mut block, 0x1c, 0);
    put_u32(&mut block, 0x20, OMAP_MANUALLY_MANAGED);
    put_u32(&mut block, 0x28, OBJ_PHYSICAL | OBJECT_TYPE_BTREE);
    put_u32(&mut block, 0x2c, OBJ_PHYSICAL | OBJECT_TYPE_BTREE);
    put_u64(&mut block, 0x30, tree_root_paddr);
    resign_block(&mut block);
    block
}

/// Build a single-key variable-kv FS-tree internal root whose only entry
/// points to a child virtual OID.
fn make_fs_internal_single_child_oid(
    _paddr: u64,
    xid: u64,
    oid: u64,
    child_oid: u64,
) -> Vec<u8> {
    let mut block = vec![0u8; BLOCK_SIZE];
    // Virtual storage (flags=0).
    put_u64(&mut block, 0x08, oid);
    put_u64(&mut block, 0x10, xid);
    put_u32(&mut block, 0x18, OBJECT_TYPE_BTREE);
    put_u32(&mut block, 0x1c, OBJECT_TYPE_FSTREE);
    let bt_flags: u16 = BTNODE_ROOT; // not leaf, not fixed
    block[0x20..0x22].copy_from_slice(&bt_flags.to_le_bytes());
    block[0x22..0x24].copy_from_slice(&1u16.to_le_bytes()); // level=1
    block[0x24..0x28].copy_from_slice(&1u32.to_le_bytes()); // nkeys=1
    let toc_len: u16 = 8; // one variable entry = 8 bytes
    block[0x28..0x2a].copy_from_slice(&0u16.to_le_bytes());
    block[0x2a..0x2c].copy_from_slice(&toc_len.to_le_bytes());
    let data_offset = OBJ_HEADER_SIZE + 24;
    let toc_offset = data_offset;
    let key_area_offset = toc_offset + toc_len as usize;
    let value_area_end = BLOCK_SIZE - BTREE_INFO_SIZE;
    // One TOC entry pointing at an 8-byte key and an 8-byte value.
    let k_off: u16 = 0;
    let k_len: u16 = 8;
    let v_off: u16 = 8;
    let v_len: u16 = 8;
    block[toc_offset..toc_offset + 2].copy_from_slice(&k_off.to_le_bytes());
    block[toc_offset + 2..toc_offset + 4].copy_from_slice(&k_len.to_le_bytes());
    block[toc_offset + 4..toc_offset + 6].copy_from_slice(&v_off.to_le_bytes());
    block[toc_offset + 6..toc_offset + 8].copy_from_slice(&v_len.to_le_bytes());
    // Key: j_key_t with object_id=0, type=0 (we never decode internal keys).
    let key_start = key_area_offset + k_off as usize;
    block[key_start..key_start + 8].copy_from_slice(&0u64.to_le_bytes());
    // Value: 8-byte child OID.
    let value_start = value_area_end - v_off as usize;
    block[value_start..value_start + 8].copy_from_slice(&child_oid.to_le_bytes());
    // btree_info_t trailer.
    let info_off = BLOCK_SIZE - BTREE_INFO_SIZE;
    block[info_off + 0x10..info_off + 0x14].copy_from_slice(&0u32.to_le_bytes());
    block[info_off + 0x14..info_off + 0x18].copy_from_slice(&0u32.to_le_bytes());
    resign_block(&mut block);
    block
}

/// Build an FS-tree leaf with one j_dstream_id record (raw_type=0x6).
/// Body decoding requires only a 4-byte refcnt; an 8-byte j_key_t header
/// is sufficient for the key. Used to exercise the FS-tree internal-OID
/// resolution path without exercising the larger DIR_REC / INODE body
/// gates that have their own coverage.
fn make_fs_leaf_single_dstream_id(_paddr: u64, xid: u64, oid: u64, object_id: u64) -> Vec<u8> {
    let mut block = vec![0u8; BLOCK_SIZE];
    put_u64(&mut block, 0x08, oid);
    put_u64(&mut block, 0x10, xid);
    put_u32(&mut block, 0x18, OBJECT_TYPE_BTREE_NODE);
    put_u32(&mut block, 0x1c, OBJECT_TYPE_FSTREE);
    let bt_flags: u16 = BTNODE_LEAF;
    block[0x20..0x22].copy_from_slice(&bt_flags.to_le_bytes());
    block[0x22..0x24].copy_from_slice(&0u16.to_le_bytes());
    block[0x24..0x28].copy_from_slice(&1u32.to_le_bytes());
    let toc_len: u16 = 8;
    block[0x28..0x2a].copy_from_slice(&0u16.to_le_bytes());
    block[0x2a..0x2c].copy_from_slice(&toc_len.to_le_bytes());
    let data_offset = OBJ_HEADER_SIZE + 24;
    let toc_offset = data_offset;
    let key_area_offset = toc_offset + toc_len as usize;
    let k_off: u16 = 0;
    let k_len: u16 = 8;
    // Value is 4 bytes (j_dstream_id_val_t.refcnt). v_off counts back from
    // value_area_end == BLOCK_SIZE (non-root) to value start.
    let v_off: u16 = 4;
    let v_len: u16 = 4;
    block[toc_offset..toc_offset + 2].copy_from_slice(&k_off.to_le_bytes());
    block[toc_offset + 2..toc_offset + 4].copy_from_slice(&k_len.to_le_bytes());
    block[toc_offset + 4..toc_offset + 6].copy_from_slice(&v_off.to_le_bytes());
    block[toc_offset + 6..toc_offset + 8].copy_from_slice(&v_len.to_le_bytes());
    // Key: j_key_t with object_id in low 60 bits and record type 0x6
    // (DSTREAM_ID) in high 4 bits.
    let key_word = (object_id & FS_OBJECT_ID_MASK) | (0x6u64 << FS_RECORD_TYPE_SHIFT);
    let key_start = key_area_offset + k_off as usize;
    block[key_start..key_start + 8].copy_from_slice(&key_word.to_le_bytes());
    let value_start = BLOCK_SIZE - v_off as usize;
    block[value_start..value_start + 4].copy_from_slice(&1u32.to_le_bytes());
    resign_block(&mut block);
    block
}

#[test]
fn fs_tree_internal_value_is_virtual_oid_resolved_via_omap() {
    // Layout:
    //   - volume OMAP-phys at paddr 2, tree root at 3
    //   - OMAP leaf at 3 maps:
    //       oid 1028 (fs root tree) -> paddr 4 at xid 5
    //       oid 1030 (child leaf)   -> paddr 7 at xid 5
    //   - FS-tree root at paddr 4: internal level-1 root, one child entry
    //     whose 8-byte value is the virtual OID 1030. The block "1030"
    //     itself is left as zeros so a walker treating the
    //     internal value as a paddr would short-read or checksum-mismatch.
    //   - FS-tree leaf at paddr 7: one DIR_REC entry.
    let mut image = vec![0u8; 8 * BLOCK_SIZE];
    let omap_phys = make_omap_phys(2, 3);
    image[2 * BLOCK_SIZE..3 * BLOCK_SIZE].copy_from_slice(&omap_phys);
    let omap_leaf = make_omap_leaf(
        3,
        &[
            (1028u64, 5u64, 0u32, BLOCK_SIZE as u32, 4u64),
            (1030u64, 5u64, 0u32, BLOCK_SIZE as u32, 7u64),
        ],
    );
    image[3 * BLOCK_SIZE..4 * BLOCK_SIZE].copy_from_slice(&omap_leaf);
    let fs_root = make_fs_internal_single_child_oid(4, 5, 1028, 1030);
    image[4 * BLOCK_SIZE..5 * BLOCK_SIZE].copy_from_slice(&fs_root);
    let fs_leaf = make_fs_leaf_single_dstream_id(7, 5, 1030, 42);
    image[7 * BLOCK_SIZE..8 * BLOCK_SIZE].copy_from_slice(&fs_leaf);

            let omap = OmapResolver::open(&image, BLOCK_SIZE, 2).expect("omap opens");
    let dump = dump_fs_records(&image, BLOCK_SIZE, 0, 1026, 4, 5, &omap)
        .expect("fs records dump succeeds");
    assert_eq!(dump.leaf_node_count, 1);
    assert_eq!(dump.index_node_count, 1);
    assert_eq!(dump.leaf_record_count, 1);
    assert_eq!(dump.unique_object_ids, 1);
    assert_eq!(dump.family_counts.len(), 1);
    let fc = &dump.family_counts[0];
    assert_eq!(fc.raw_type, 0x6);
    assert_eq!(fc.name, "dstream_id");
    assert_eq!(fc.count, 1);
    assert_eq!(dump.records.len(), 1);
}

#[test]
fn fs_tree_internal_oid_missing_from_omap_is_hard_stop() {
    // Same layout as above but the OMAP only contains the root mapping; the
    // child OID 1030 has no mapping, so the walker must hard-stop instead
    // of falling back to treating the value as a paddr.
    let mut image = vec![0u8; 8 * BLOCK_SIZE];
    let omap_phys = make_omap_phys(2, 3);
    image[2 * BLOCK_SIZE..3 * BLOCK_SIZE].copy_from_slice(&omap_phys);
    let omap_leaf = make_omap_leaf(3, &[(1028u64, 5u64, 0u32, BLOCK_SIZE as u32, 4u64)]);
    image[3 * BLOCK_SIZE..4 * BLOCK_SIZE].copy_from_slice(&omap_leaf);
    let fs_root = make_fs_internal_single_child_oid(4, 5, 1028, 1030);
    image[4 * BLOCK_SIZE..5 * BLOCK_SIZE].copy_from_slice(&fs_root);

            let omap = OmapResolver::open(&image, BLOCK_SIZE, 2).expect("omap opens");
    let err = dump_fs_records(&image, BLOCK_SIZE, 0, 1026, 4, 5, &omap)
        .expect_err("missing child OID is a hard stop");
    match err {
        ScanError::InvalidObject(reason) => {
            assert!(
                reason.contains("not resolvable in volume OMAP"),
                "unexpected error: {reason}"
            );
            assert!(
                reason.contains("1030"),
                "expected oid 1030 in error: {reason}"
            );
        }
        other => panic!("unexpected error variant: {other:?}"),
    }
}

#[test]
fn family_names_match_apple_reference() {
    // The j_obj_kinds_t values; guards against accidental shuffling of
    // the table when families are added.
    assert_eq!(record_family_name(0x3), "inode");
    assert_eq!(record_family_name(0x4), "xattr");
    assert_eq!(record_family_name(0x5), "sibling_link");
    assert_eq!(record_family_name(0x6), "dstream_id");
    assert_eq!(record_family_name(0x8), "file_extent");
    assert_eq!(record_family_name(0x9), "dir_rec");
    assert_eq!(record_family_name(0xc), "sibling_map");
    assert_eq!(record_family_name(0x42), "unknown");
}

#[test]
fn v1_namespace_scope_matches_rl_03() {
    // Directory record, inode, dstream id, xattr, sibling link/map.
    for raw in [0x3u8, 0x4, 0x5, 0x6, 0x9, 0xc] {
        assert!(
            family_in_v1_namespace_scope(raw),
            "{raw:#x} should be in scope"
        );
    }
    for raw in [0x1u8, 0x2, 0x7, 0x8, 0xa, 0xb, 0xd] {
        assert!(
            !family_in_v1_namespace_scope(raw),
            "{raw:#x} must stay out of the v1 namespace scope"
        );
    }
}

#[test]
fn known_family_range_is_one_through_thirteen() {
    for raw in 1u8..=13 {
        assert!(is_known_record_family(raw));
    }
    assert!(!is_known_record_family(0));
    assert!(!is_known_record_family(14));
    assert!(!is_known_record_family(0xff));
}
