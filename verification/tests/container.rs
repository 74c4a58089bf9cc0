use apfs_fastindex::block_io::{put_u32, put_u64, resign_block};
use apfs_fastindex::container::{
    decode_container_summary, format_uuid, walk_checkpoint_maps, ContainerSummary, FS_OID_ARRAY_OFFSET,
    NX_INCOMPAT_FUSION, NX_INCOMPAT_VERSION2,
};
use apfs_fastindex::object::{ObjectHeader, OBJECT_TYPE_NX_SUPERBLOCK};
use apfs_fastindex::ScanError;

fn stub_container(xp_desc_base: u64, xp_desc_blocks: u32, xp_desc_len: u32) -> ContainerSummary {
    ContainerSummary {
        block_address: 0,
        xid: 0,
        block_size: 4096,
        block_count: 1,
        features_raw: 0,
        readonly_compatible_features_raw: 0,
        incompatible_features_raw: 0,
        features: Vec::new(),
        incompatible_features: Vec::new(),
        unsupported_incompatible_features: 0,
        uuid_hex: String::new(),
        next_oid: 0,
        next_xid: 0,
        xp_desc_blocks,
        xp_desc_base,
        xp_desc_index: 0,
        xp_desc_len,
        xp_data_blocks: 0,
        xp_data_base: 0,
        xp_data_index: 0,
        xp_data_len: 0,
        spaceman_oid: 0,
        omap_oid: 0,
        reaper_oid: 0,
        max_file_systems: 0,
        volume_oids: Vec::new(),
        object_storage_summary: Vec::new(),
        object_header: ObjectHeader {
            block_address: 0,
            checksum: 0,
            oid: 0,
            xid: 0,
            object_type_raw: 0,
            object_type: 0,
            object_type_flags: 0,
            object_subtype: 0,
        },
    }
}

#[test]
fn walk_checkpoint_maps_rejects_xp_desc_base_overflow() {
    let container = stub_container(u64::MAX, 2, 2);
    let image = vec![0u8; 8192];
    let err = walk_checkpoint_maps(&image, 4096, &container, 0)
        .expect_err("u64::MAX xp_desc_base must fail-closed on overflow");
    let msg = err.message();
    assert!(
        msg.contains("overflow") || msg.contains("xp_desc"),
        "error should reference the overflow / xp_desc field; got: {msg}"
    );
}

#[test]
fn walk_checkpoint_maps_accepts_normal_xp_desc_base() {
    let container = stub_container(1, 4, 4);
    let image = vec![0u8; 8192];
    let result = walk_checkpoint_maps(&image, 4096, &container, 0);
    let err = result.expect_err("stub container should fail downstream");
    let msg = err.message();
    assert!(!msg.contains("overflow"), "non-overflow path must not trip the overflow guard; got: {msg}");
}

#[test]
fn walk_checkpoint_maps_rejects_empty_descriptor_area() {
    let container = stub_container(1, 0, 0);
    let image = vec![0u8; 8192];
    let err = walk_checkpoint_maps(&image, 4096, &container, 0).expect_err("empty ring is refused");
    assert!(matches!(err, ScanError::InvalidObject(_)));
    let longer = stub_container(1, 2, 3);
    assert!(walk_checkpoint_maps(&image, 4096, &longer, 0).is_err());
}

#[test]
fn format_uuid_groups_bytes() {
    let bytes: Vec<u8> = (0u8..16).collect();
    assert_eq!(format_uuid(&bytes), "00010203-0405-0607-0809-0a0b0c0d0e0f");
    assert_eq!(format_uuid(&bytes[..15]), "");
}

fn superblock(max_file_systems: u32) -> Vec<u8> {
    let mut block = vec![0u8; 4096];
    put_u64(&mut block, 0x08, 1);
    put_u64(&mut block, 0x10, 42);
    put_u32(&mut block, 0x18, OBJECT_TYPE_NX_SUPERBLOCK);
    put_u32(&mut block, 0x20, 0x4253_584e);
    put_u32(&mut block, 0x24, 4096);
    put_u64(&mut block, 0x28, 1000);
    put_u64(&mut block, 0x40, NX_INCOMPAT_VERSION2 | NX_INCOMPAT_FUSION | 0x1000);
    for (i, b) in (0x48..0x58).enumerate() {
        block[b] = 0xa0 + i as u8;
    }
    put_u32(&mut block, 0x68, 8);
    put_u64(&mut block, 0x70, (1u64 << 63) | 5);
    put_u32(&mut block, 0x8c, 3);
    put_u64(&mut block, 0xa0, 1234);
    put_u32(&mut block, 0xb4, max_file_systems);
    put_u64(&mut block, FS_OID_ARRAY_OFFSET, 1026);
    put_u64(&mut block, FS_OID_ARRAY_OFFSET + 16, 1030);
    resign_block(&mut block);
    block
}

#[test]
fn decode_container_summary_reads_superblock_fields() {
    let block = superblock(100);
    let c = decode_container_summary(&block, 0).expect("superblock decodes");
    assert_eq!(c.xid, 42);
    assert_eq!(c.block_size, 4096);
    assert_eq!(c.block_count, 1000);
    assert_eq!(c.incompatible_features, vec!["version2", "fusion"]);
    assert_eq!(c.unsupported_incompatible_features, 0x1000);
    assert_eq!(c.uuid_hex, "a0a1a2a3-a4a5-a6a7-a8a9-aaabacadaeaf");
    assert_eq!(c.xp_desc_blocks, 8);
    assert_eq!(c.xp_desc_base, 5);
    assert_eq!(c.xp_desc_len, 3);
    assert_eq!(c.omap_oid, 1234);
    assert_eq!(c.max_file_systems, 100);
    assert_eq!(c.volume_oids, vec![1026, 1030]);
    assert_eq!(c.object_storage_summary, vec!["virtual"]);
}

#[test]
fn decode_container_summary_rejects_bad_max_file_systems() {
    let block = superblock(0);
    let err = decode_container_summary(&block, 0).expect_err("zero max file systems refused");
    assert!(matches!(err, ScanError::InvalidObject(reason) if reason.contains("nx_max_file_systems=0")));
    let block = superblock(101);
    assert!(decode_container_summary(&block, 0).is_err());
}

#[test]
fn walk_checkpoint_maps_names_the_overflowing_position() {
    // The ring starts at index 1 of a two-block area: position 1 past
    // u64::MAX.
    let mut container = stub_container(u64::MAX, 2, 2);
    container.xp_desc_index = 1;
    let image = vec![0u8; 8192];
    match walk_checkpoint_maps(&image, 4096, &container, 0) {
        Err(ScanError::InvalidObject(m)) => {
            assert_eq!(m, "xp_desc_base 18446744073709551615 + position 1 overflows u64")
        }
        other => panic!("expected an overflow refusal, got {:?}", other.map(|_| ())),
    }
}

#[test]
fn walk_checkpoint_maps_refuses_a_ring_longer_than_its_area() {
    let container = stub_container(1, 2, 3);
    let image = vec![0u8; 8192];
    match walk_checkpoint_maps(&image, 4096, &container, 0) {
        Err(ScanError::InvalidObject(m)) => {
            assert_eq!(m, "checkpoint descriptor length 3 exceeds descriptor area size 2")
        }
        other => panic!("unexpected {:?}", other.map(|_| ())),
    }
}
