use apfs_fastindex::block_io::apfs_fletcher64;
use apfs_fastindex::checkpoint::{NxsbCandidate, ScanReport, NX_MAGIC, NX_SUPERBLOCK_OID};
use apfs_fastindex::native::{attempt_native_dump, checkpoint_scan_source, scan_source};
use apfs_fastindex::object::OBJECT_TYPE_NX_SUPERBLOCK;
use apfs_fastindex::source::raw_device_descriptor;
use apfs_fastindex::ScanError;

const BLOCK_SIZE: usize = 4096;

fn put_u32(block: &mut [u8], offset: usize, value: u32) {
    block[offset..offset + 4].copy_from_slice(&value.to_le_bytes());
}

fn put_u64(block: &mut [u8], offset: usize, value: u64) {
    block[offset..offset + 8].copy_from_slice(&value.to_le_bytes());
}

/// A superblock with a descriptor area of `blocks` blocks at `base` and
/// no file systems (so the native dump of it is refused).
fn write_nxsb(image: &mut [u8], block_address: usize, xid: u64, base: u64, blocks: u32) {
    let block = &mut image[block_address * BLOCK_SIZE..(block_address + 1) * BLOCK_SIZE];
    block.fill(0);
    put_u64(block, 0x08, if block_address == 0 { NX_SUPERBLOCK_OID } else { block_address as u64 });
    put_u64(block, 0x10, xid);
    put_u32(block, 0x18, OBJECT_TYPE_NX_SUPERBLOCK);
    put_u32(block, 0x20, NX_MAGIC);
    put_u32(block, 0x24, BLOCK_SIZE as u32);
    put_u32(block, 0x68, blocks);
    put_u64(block, 0x70, base);
    let checksum = apfs_fletcher64(block);
    put_u64(block, 0, checksum);
}

#[test]
fn failed_native_dump_is_reported_as_gaps() {
    let mut image = vec![0u8; BLOCK_SIZE * 4];
    write_nxsb(&mut image, 0, 1, 1, 3);
    write_nxsb(&mut image, 2, 8, 1, 3);
    let source = raw_device_descriptor("/dev/disk7").unwrap();
    let out = checkpoint_scan_source(source, &image).expect("descriptor scan succeeds");
    assert_eq!(out.checkpoint_candidates.len(), 1);
    assert_eq!(out.checkpoint_candidates[0].xid, 8);
    assert!(out.selected_checkpoint.is_none());
    let po = &out.parser_output;
    assert_eq!(po.backend_name, "rust-checkpoint-scan");
    assert_eq!(po.source.raw_container_path, "/dev/rdisk7");
    assert!(po.entries.is_empty());
    assert_eq!(po.scan_state.highest_xid, 8);
    assert_eq!(po.scan_state.candidate_count, 1);
    let gaps = &po.scan_state.validation_gaps;
    assert_eq!(gaps.len(), 5);
    assert!(gaps[0].starts_with("native dump aborted: APFS object validation failed: "));
    assert_eq!(gaps[1], "checkpoint map validation not completed");
    assert_eq!(gaps[4], "FS-tree record dumping not completed");
    assert_eq!(
        out.correctness_claim,
        "Rust path validates the source gate and preliminary checkpoint descriptor scan only"
    );
    assert!(out.not_claimed[0].starts_with("namespace entry emission"));
}

#[test]
fn scan_errors_pass_through() {
    let image = vec![0u8; BLOCK_SIZE];
    let source = raw_device_descriptor("/dev/rdisk1").unwrap();
    let err = scan_source(source, &image).expect_err("block zero is empty");
    assert!(matches!(err, ScanError::InvalidBlockZero(_)));
    let short = vec![0u8; 100];
    let source = raw_device_descriptor("/dev/rdisk1").unwrap();
    assert!(matches!(
        scan_source(source, &short),
        Err(ScanError::ShortRead { block_address: 0, expected: 4096, actual: 100 })
    ));
}

#[test]
fn native_dump_refuses_unknown_incompatible_features() {
    let mut b = vec![0u8; BLOCK_SIZE];
    put_u64(&mut b, 0x08, 1);
    put_u64(&mut b, 0x10, 7);
    put_u32(&mut b, 0x18, OBJECT_TYPE_NX_SUPERBLOCK);
    put_u32(&mut b, 0x20, NX_MAGIC);
    put_u32(&mut b, 0x24, BLOCK_SIZE as u32);
    put_u64(&mut b, 0x40, 0x200);
    put_u32(&mut b, 0xb4, 1);
    let checksum = apfs_fletcher64(&b);
    put_u64(&mut b, 0, checksum);
    let h = NxsbCandidate {
        descriptor_index: 0,
        block_address: 0,
        oid: 1,
        xid: 7,
        object_type_raw: OBJECT_TYPE_NX_SUPERBLOCK,
        object_subtype: 0,
        checksum: 0,
    };
    let report = ScanReport {
        block_size: BLOCK_SIZE as u32,
        descriptor_blocks: 1,
        descriptor_base: 0,
        descriptor_base_non_contiguous: false,
        candidates: vec![h.clone()],
        skipped_descriptors: vec![],
    };
    match attempt_native_dump(&b, &report, &h) {
        Err(ScanError::UnsupportedContainerFeature(m)) => {
            assert_eq!(m, "container sets unknown incompatible features 0x200")
        }
        other => panic!("unexpected {:?}", other.map(|_| ())),
    }
}
