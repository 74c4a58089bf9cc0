use apfs_fastindex::fallback_bulk::{
    entry_kind_from_obj_type, parse_bulk_buffer, parse_entry, BulkEntry, BulkParseError, ATTR_CMN_DEVID,
    ATTR_CMN_ERROR, ATTR_CMN_FILEID, ATTR_CMN_NAME, ATTR_CMN_OBJTYPE, ATTR_FILE_ALLOCSIZE, ATTR_FILE_TOTALSIZE, VDIR,
    VLNK, VREG,
};
use apfs_fastindex::namespace::EntryKind;

const ALL_COMMON: u32 = ATTR_CMN_NAME | ATTR_CMN_DEVID | ATTR_CMN_OBJTYPE | ATTR_CMN_FILEID | ATTR_CMN_ERROR;
const ALL_FILE: u32 = ATTR_FILE_TOTALSIZE | ATTR_FILE_ALLOCSIZE;

/// One record with every attribute: name reference at 24, dev id at 32,
/// object type at 36, file id at 40, error at 48, total size at 56,
/// allocated size at 64, name bytes at 72.
fn record(name: &[u8], obj_type: u32, file_id: u64, error: u32, total: u64, alloc: u64) -> Vec<u8> {
    let name_len = name.len() + 1;
    let len = (72 + name_len + 7) / 8 * 8;
    let mut e = vec![0u8; len];
    e[0..4].copy_from_slice(&(len as u32).to_le_bytes());
    e[4..8].copy_from_slice(&ALL_COMMON.to_le_bytes());
    e[16..20].copy_from_slice(&ALL_FILE.to_le_bytes());
    e[24..28].copy_from_slice(&48i32.to_le_bytes());
    e[28..32].copy_from_slice(&(name_len as u32).to_le_bytes());
    e[32..36].copy_from_slice(&7u32.to_le_bytes());
    e[36..40].copy_from_slice(&obj_type.to_le_bytes());
    e[40..48].copy_from_slice(&file_id.to_le_bytes());
    e[48..52].copy_from_slice(&error.to_le_bytes());
    e[56..64].copy_from_slice(&total.to_le_bytes());
    e[64..72].copy_from_slice(&alloc.to_le_bytes());
    e[72..72 + name.len()].copy_from_slice(name);
    e
}

#[test]
fn parse_entry_reads_every_field_of_a_file() {
    let e = record(b"hello.txt", VREG, 99, 0, 1234, 4096);
    let parsed = parse_entry(&e).unwrap().unwrap();
    assert_eq!(
        parsed,
        BulkEntry {
            name: "hello.txt".to_string(),
            kind: EntryKind::File,
            file_id: 99,
            logical_size: 1234,
            allocated_bytes: 4096,
            dev_id: 7,
        }
    );
}

#[test]
fn parse_entry_zeroes_sizes_of_non_files() {
    let e = record(b"sub", VDIR, 5, 0, 1234, 4096);
    let parsed = parse_entry(&e).unwrap().unwrap();
    assert_eq!(parsed.kind, EntryKind::Dir);
    assert_eq!(parsed.logical_size, 0);
    assert_eq!(parsed.allocated_bytes, 0);
}

#[test]
fn parse_entry_skips_records_flagged_with_an_error() {
    let e = record(b"gone", VREG, 5, 13, 1, 1);
    assert_eq!(parse_entry(&e), Ok(None));
}

#[test]
fn parse_entry_refuses_bad_names() {
    let mut e = record(b"\xff\xfe", VREG, 5, 0, 1, 1);
    assert_eq!(parse_entry(&e), Err(BulkParseError::NameNotUtf8));
    e = record(b"ok", VREG, 5, 0, 1, 1);
    e[28..32].copy_from_slice(&0u32.to_le_bytes());
    assert_eq!(parse_entry(&e), Err(BulkParseError::NameOutOfBounds));
    e = record(b"ok", VREG, 5, 0, 1, 1);
    e[28..32].copy_from_slice(&200u32.to_le_bytes());
    assert_eq!(parse_entry(&e), Err(BulkParseError::NameOutOfBounds));
    assert_eq!(parse_entry(&e[..20]), Err(BulkParseError::Truncated));
    assert_eq!(BulkParseError::NameNotUtf8.message(), "entry name is not valid UTF-8");
}

#[test]
fn parse_bulk_buffer_walks_consecutive_records() {
    let mut buf = record(b"a.txt", VREG, 1, 0, 10, 4096);
    buf.extend_from_slice(&record(b"link", VLNK, 2, 0, 3, 0));
    buf.extend_from_slice(&record(b"err", VREG, 3, 1, 0, 0));
    let entries = parse_bulk_buffer(&buf, 3).unwrap().unwrap();
    assert_eq!(entries.len(), 2);
    assert_eq!(entries[0].name, "a.txt");
    assert_eq!(entries[1].kind, EntryKind::Symlink);
    assert_eq!(entries[1].file_id, 2);
}

#[test]
fn parse_bulk_buffer_refuses_malformed_lengths() {
    let mut buf = record(b"a", VREG, 1, 0, 0, 0);
    buf[0..4].copy_from_slice(&10u32.to_le_bytes());
    assert_eq!(parse_bulk_buffer(&buf, 1), Some(Err(BulkParseError::MalformedLength)));
    let buf = record(b"a", VREG, 1, 0, 0, 0);
    assert_eq!(parse_bulk_buffer(&buf, 2), Some(Err(BulkParseError::Truncated)));
}

#[test]
fn obj_types_map_to_entry_kinds() {
    assert_eq!(entry_kind_from_obj_type(VREG), EntryKind::File);
    assert_eq!(entry_kind_from_obj_type(VDIR), EntryKind::Dir);
    assert_eq!(entry_kind_from_obj_type(VLNK), EntryKind::Symlink);
    assert_eq!(entry_kind_from_obj_type(3), EntryKind::Other);
}
