use apfs_fastindex::block_io::{apfs_fletcher64, le_u64};
use apfs_fastindex::checkpoint::{
    parse_nxsb_candidate, scan_reader, validate_block_size, validate_nxsb_block0, NX_MAGIC, NX_SUPERBLOCK_OID,
};
use apfs_fastindex::object::OBJECT_TYPE_NX_SUPERBLOCK;
use apfs_fastindex::ScanError;

const BLOCK_SIZE: usize = 4096;
const NXSB_TYPE: u32 = OBJECT_TYPE_NX_SUPERBLOCK;

fn put_u32(block: &mut [u8], offset: usize, value: u32) {
    block[offset..offset + 4].copy_from_slice(&value.to_le_bytes());
}

fn put_u64(block: &mut [u8], offset: usize, value: u64) {
    block[offset..offset + 8].copy_from_slice(&value.to_le_bytes());
}

fn resign(block: &mut [u8]) {
    let checksum = apfs_fletcher64(block);
    put_u64(block, 0, checksum);
}

fn write_nxsb(
    image: &mut [u8],
    block_address: usize,
    xid: u64,
    descriptor_base: u64,
    descriptor_blocks: u32,
    valid_checksum: bool,
    object_type: u32,
) {
    let start = block_address * BLOCK_SIZE;
    let end = start + BLOCK_SIZE;
    let block = &mut image[start..end];
    block.fill(0);
    let oid = if block_address == 0 { NX_SUPERBLOCK_OID } else { block_address as u64 };
    put_u64(block, 0x08, oid);
    put_u64(block, 0x10, xid);
    put_u32(block, 0x18, object_type);
    put_u32(block, 0x20, NX_MAGIC);
    put_u32(block, 0x24, BLOCK_SIZE as u32);
    put_u32(block, 0x68, descriptor_blocks);
    put_u64(block, 0x70, descriptor_base);
    resign(block);
    if !valid_checksum {
        block[100] ^= 0xff;
    }
}

#[test]
fn chooses_highest_valid_nxsb_and_skips_bad_checksum() {
    let mut image = vec![0u8; BLOCK_SIZE * 6];
    write_nxsb(&mut image, 0, 2, 2, 3, true, NXSB_TYPE);
    write_nxsb(&mut image, 2, 30, 2, 2, true, NXSB_TYPE);
    write_nxsb(&mut image, 3, 99, 3, 3, false, NXSB_TYPE);
    write_nxsb(&mut image, 4, 42, 4, 4, true, NXSB_TYPE);

    let report = scan_reader(&image).expect("scan succeeds");
    assert_eq!(report.candidates.len(), 2);
    assert_eq!(report.skipped_descriptors.len(), 1);
    assert_eq!(report.highest_candidate().unwrap().xid, 42);
}

#[test]
fn rejects_non_contiguous_descriptor_area() {
    let mut image = vec![0u8; BLOCK_SIZE * 2];
    write_nxsb(&mut image, 0, 2, 2, 1, true, NXSB_TYPE);
    let base = le_u64(&image[..BLOCK_SIZE], 0x70) | (1u64 << 63);
    put_u64(&mut image[..BLOCK_SIZE], 0x70, base);
    resign(&mut image[..BLOCK_SIZE]);

    let err = scan_reader(&image).expect_err("layout rejected");
    assert!(matches!(err, ScanError::UnsupportedDescriptorLayout(_)));
}

#[test]
fn rejects_short_descriptor_read() {
    let mut image = vec![0u8; BLOCK_SIZE * 3 + 100];
    write_nxsb(&mut image, 0, 2, 2, 2, true, NXSB_TYPE);
    write_nxsb(&mut image, 2, 10, 2, 2, true, NXSB_TYPE);

    let err = scan_reader(&image).expect_err("short read rejected");
    assert!(matches!(err, ScanError::ShortRead { block_address: 3, .. }));
}

#[test]
fn skips_nxsb_magic_with_wrong_object_type() {
    let mut image = vec![0u8; BLOCK_SIZE * 4];
    write_nxsb(&mut image, 0, 2, 2, 2, true, NXSB_TYPE);
    write_nxsb(&mut image, 2, 10, 2, 2, true, 0x0000_000b);
    write_nxsb(&mut image, 3, 11, 3, 3, true, NXSB_TYPE);

    let report = scan_reader(&image).expect("scan succeeds");
    assert_eq!(report.candidates.len(), 1);
    assert_eq!(report.highest_candidate().unwrap().xid, 11);
    assert_eq!(report.skipped_descriptors.len(), 1);
    assert!(report.skipped_descriptors[0].reason.contains("non-NX-superblock"));
}

#[test]
fn scan_reports_descriptor_geometry_and_candidate_fields() {
    let mut image = vec![0u8; BLOCK_SIZE * 4];
    write_nxsb(&mut image, 0, 2, 1, 3, true, NXSB_TYPE);
    write_nxsb(&mut image, 2, 7, 1, 3, true, NXSB_TYPE);
    let report = scan_reader(&image).unwrap();
    assert_eq!(report.block_size, 4096);
    assert_eq!(report.descriptor_blocks, 3);
    assert_eq!(report.descriptor_base, 1);
    assert!(!report.descriptor_base_non_contiguous);
    assert_eq!(report.candidates.len(), 1);
    let c = report.candidates[0];
    assert_eq!(c.descriptor_index, 1);
    assert_eq!(c.block_address, 2);
    assert_eq!(c.oid, 2);
    assert_eq!(c.xid, 7);
    let state = report.to_scan_state(vec!["gap".to_string()]);
    assert_eq!(state.highest_xid, 7);
    assert_eq!(state.candidate_count, 1);
    assert_eq!(state.validation_gaps, vec!["gap".to_string()]);
}

#[test]
fn scan_without_candidates_fails() {
    let mut image = vec![0u8; BLOCK_SIZE * 3];
    write_nxsb(&mut image, 0, 2, 1, 2, true, NXSB_TYPE);
    let err = scan_reader(&image).expect_err("no candidates");
    assert!(matches!(err, ScanError::NoCheckpointCandidates));
    assert_eq!(err.message(), "no valid checkpoint NXSB candidates found");
}

#[test]
fn block_zero_checks_are_reported_in_order() {
    let mut block = vec![0u8; BLOCK_SIZE];
    let err = validate_nxsb_block0(&block).unwrap_err();
    assert_eq!(err.message(), "invalid APFS block zero: missing NXSB magic at block zero");
    write_nxsb(&mut block, 0, 1, 1, 1, true, NXSB_TYPE);
    assert!(validate_nxsb_block0(&block).is_ok());
    block[200] ^= 1;
    let err = validate_nxsb_block0(&block).unwrap_err();
    assert!(matches!(err, ScanError::InvalidBlockZero(m) if m == "block-zero object checksum is invalid"));
}

#[test]
fn block_size_allowlist() {
    assert!(validate_block_size(4096).is_ok());
    assert!(validate_block_size(65536).is_ok());
    let err = validate_block_size(512).unwrap_err();
    assert_eq!(err.message(), "invalid APFS block zero: block size 512 is outside the current allowlist");
    let err = validate_block_size(12288).unwrap_err();
    assert!(matches!(err, ScanError::InvalidBlockZero(m) if m == "block size 12288 is not a power of two"));
}

#[test]
fn parse_candidate_classifies_blocks() {
    let mut image = vec![0u8; BLOCK_SIZE];
    assert_eq!(parse_nxsb_candidate(&image, 0, 5).unwrap(), None);
    write_nxsb(&mut image, 0, 9, 1, 1, true, 0x4000_000b);
    assert_eq!(
        parse_nxsb_candidate(&image, 0, 5).unwrap_err(),
        "NXSB magic with non-NX-superblock object type 0x4000000b"
    );
    write_nxsb(&mut image, 0, 9, 1, 1, false, NXSB_TYPE);
    assert_eq!(parse_nxsb_candidate(&image, 0, 5).unwrap_err(), "NXSB checksum mismatch");
}
