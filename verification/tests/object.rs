use apfs_fastindex::block_io::{put_u32, put_u64, resign_block};
use apfs_fastindex::object::{
    flags_summary, validate_object_block, ExpectedStorage, ObjectExpectation, ObjectHeader, OBJECT_TYPE_BTREE,
    OBJECT_TYPE_FSTREE, OBJECT_TYPE_OMAP, OBJ_ENCRYPTED, OBJ_NOHEADER, OBJ_PHYSICAL,
};
use apfs_fastindex::ScanError;

const BLOCK_SIZE: usize = 4096;

fn make_header_block(oid: u64, xid: u64, object_type_raw: u32, object_subtype: u32, block_address: u64) -> Vec<u8> {
    let mut block = vec![0u8; BLOCK_SIZE];
    put_u64(&mut block, 0x08, oid);
    put_u64(&mut block, 0x10, xid);
    put_u32(&mut block, 0x18, object_type_raw);
    put_u32(&mut block, 0x1c, object_subtype);
    resign_block(&mut block);
    let _ = block_address;
    block
}

fn invalid_reason(err: ScanError) -> String {
    match err {
        ScanError::InvalidObject(reason) => reason,
        other => panic!("expected InvalidObject, got {:?}", other),
    }
}

#[test]
fn validates_physical_object_with_oid_eq_paddr() {
    let block = make_header_block(7, 14, OBJ_PHYSICAL | OBJECT_TYPE_OMAP, 0, 7);
    let header = validate_object_block(&block, 7, ObjectExpectation::physical(OBJECT_TYPE_OMAP))
        .expect("physical OMAP header is accepted");
    assert_eq!(header.oid, 7);
    assert_eq!(header.object_type, OBJECT_TYPE_OMAP);
    assert!(header.is_physical());
}

#[test]
fn rejects_physical_when_oid_differs_from_paddr() {
    let block = make_header_block(8, 14, OBJ_PHYSICAL | OBJECT_TYPE_OMAP, 0, 7);
    let err = validate_object_block(&block, 7, ObjectExpectation::physical(OBJECT_TYPE_OMAP))
        .expect_err("oid != paddr is rejected for physical objects");
    assert!(invalid_reason(err).contains("o_oid"));
}

#[test]
fn rejects_encrypted_object_unconditionally() {
    let block = make_header_block(7, 14, OBJ_PHYSICAL | OBJ_ENCRYPTED | OBJECT_TYPE_OMAP, 0, 7);
    let err = validate_object_block(&block, 7, ObjectExpectation::physical(OBJECT_TYPE_OMAP))
        .expect_err("encrypted objects are rejected");
    assert!(invalid_reason(err).contains("OBJ_ENCRYPTED"));
}

#[test]
fn rejects_object_newer_than_scan_xid() {
    let block = make_header_block(7, 99, OBJ_PHYSICAL | OBJECT_TYPE_OMAP, 0, 7);
    let expectation = ObjectExpectation {
        object_type: OBJECT_TYPE_OMAP,
        storage: ExpectedStorage::Physical,
        max_xid: Some(50),
        require_oid_eq_paddr: true,
    };
    let err = validate_object_block(&block, 7, expectation).expect_err("object newer than scan_xid is rejected");
    assert!(invalid_reason(err).contains("newer"));
}

#[test]
fn rejects_storage_class_mismatch() {
    let block = make_header_block(7, 14, OBJ_PHYSICAL | OBJECT_TYPE_BTREE, 0, 7);
    let expectation = ObjectExpectation::virtual_object(OBJECT_TYPE_BTREE, None);
    let err = validate_object_block(&block, 7, expectation)
        .expect_err("physical object is rejected when virtual is expected");
    assert!(invalid_reason(err).contains("storage flags"));
}

#[test]
fn rejects_checksum_mismatch() {
    let mut block = make_header_block(7, 14, OBJ_PHYSICAL | OBJECT_TYPE_OMAP, 0, 7);
    block[200] ^= 0xff;
    let err = validate_object_block(&block, 7, ObjectExpectation::physical(OBJECT_TYPE_OMAP))
        .expect_err("checksum mismatch is rejected");
    assert!(invalid_reason(err).contains("checksum"));
}

#[test]
fn accepts_virtual_object_when_virtual_expected() {
    let block = make_header_block(1028, 13, OBJECT_TYPE_BTREE, OBJECT_TYPE_FSTREE, 433);
    let expectation = ObjectExpectation::virtual_object(OBJECT_TYPE_BTREE, Some(14));
    let header = validate_object_block(&block, 433, expectation).expect("virtual FS-tree root header is accepted");
    assert_eq!(header.object_subtype, OBJECT_TYPE_FSTREE);
    assert!(!header.is_physical());
    assert!(!header.is_ephemeral());
}

#[test]
fn rejects_wrong_object_type_with_both_types_named() {
    let block = make_header_block(7, 14, OBJ_PHYSICAL | OBJECT_TYPE_OMAP, 0, 7);
    let err = validate_object_block(&block, 7, ObjectExpectation::physical(OBJECT_TYPE_BTREE))
        .expect_err("wrong type is rejected");
    assert_eq!(
        err.message(),
        "APFS object validation failed: block 7 has object type 0x000b, expected 0x0002"
    );
}

#[test]
fn rejects_noheader_object() {
    let block = make_header_block(7, 14, OBJ_PHYSICAL | OBJ_NOHEADER | OBJECT_TYPE_OMAP, 0, 7);
    let err = validate_object_block(&block, 7, ObjectExpectation::physical(OBJECT_TYPE_OMAP))
        .expect_err("noheader objects are rejected");
    assert!(invalid_reason(err).contains("OBJ_NOHEADER"));
}

#[test]
fn header_fields_decode_from_block() {
    let block = make_header_block(0x1122, 0x33, OBJ_PHYSICAL | OBJECT_TYPE_OMAP, 5, 9);
    let header = ObjectHeader::from_block(&block, 9);
    assert_eq!(header.block_address, 9);
    assert_eq!(header.oid, 0x1122);
    assert_eq!(header.xid, 0x33);
    assert_eq!(header.object_type_raw, OBJ_PHYSICAL | OBJECT_TYPE_OMAP);
    assert_eq!(header.object_type, OBJECT_TYPE_OMAP);
    assert_eq!(header.object_type_flags, OBJ_PHYSICAL);
    assert_eq!(header.object_subtype, 5);
    assert_eq!(flags_summary(&header), vec!["physical"]);
}

#[test]
fn flags_summary_lists_hard_stops_without_storage_class() {
    let block = make_header_block(1, 1, OBJ_ENCRYPTED | OBJ_NOHEADER | OBJECT_TYPE_BTREE, 0, 1);
    let header = ObjectHeader::from_block(&block, 1);
    assert_eq!(flags_summary(&header), vec!["encrypted", "noheader"]);
    let plain = make_header_block(1, 1, OBJECT_TYPE_BTREE, 0, 1);
    assert_eq!(flags_summary(&ObjectHeader::from_block(&plain, 1)), vec!["virtual"]);
}
