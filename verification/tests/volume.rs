use apfs_fastindex::block_io::{put_u16, put_u32, put_u64, resign_block};
use apfs_fastindex::object::{APFS_MAGIC, OBJECT_TYPE_FS};
use apfs_fastindex::volume::{
    decode_role, decode_volname, decode_volume_summary, VolumeSupportStatus, APFS_FS_UNENCRYPTED,
    APFS_INCOMPAT_CASE_INSENSITIVE, APFS_INCOMPAT_SEALED_VOLUME, APFS_ROLE_OFFSET, APFS_VOLNAME_OFFSET,
    APFS_VOL_ROLE_DATA, APFS_VOL_ROLE_SYSTEM,
};
use apfs_fastindex::ScanError;

#[test]
fn volume_names_stop_at_nul_and_replace_bad_bytes() {
    assert_eq!(decode_volname(b"Macintosh HD\0garbage"), "Macintosh HD");
    assert_eq!(decode_volname(b"no-nul"), "no-nul");
    assert_eq!(decode_volname(b"a\xffb\0"), "a\u{fffd}b");
    assert_eq!(decode_volname(b"\0"), "");
}

#[test]
fn roles_name_each_known_bit() {
    assert_eq!(decode_role(0), vec!["none"]);
    assert_eq!(decode_role(APFS_VOL_ROLE_SYSTEM | APFS_VOL_ROLE_DATA), vec!["system", "data"]);
    assert_eq!(decode_role(0x8000), vec!["unknown"]);
}

fn volume_block(oid: u64, xid: u64, fs_flags: u64, incompat: u64) -> Vec<u8> {
    let mut block = vec![0u8; 4096];
    put_u64(&mut block, 0x08, oid);
    put_u64(&mut block, 0x10, xid);
    put_u32(&mut block, 0x18, OBJECT_TYPE_FS);
    put_u32(&mut block, 0x20, APFS_MAGIC);
    put_u32(&mut block, 0x24, 1);
    put_u64(&mut block, 0x38, incompat);
    put_u64(&mut block, 0x80, 1234);
    put_u64(&mut block, 0x88, 1026);
    put_u64(&mut block, 0xb8, 10);
    put_u64(&mut block, 0x108, fs_flags);
    block[APFS_VOLNAME_OFFSET..APFS_VOLNAME_OFFSET + 4].copy_from_slice(b"Data");
    put_u16(&mut block, APFS_ROLE_OFFSET, APFS_VOL_ROLE_DATA);
    resign_block(&mut block);
    block
}

#[test]
fn decode_volume_summary_reads_fields_and_support() {
    let block = volume_block(1026, 5, APFS_FS_UNENCRYPTED, APFS_INCOMPAT_CASE_INSENSITIVE);
    let v = decode_volume_summary(&block, 77, 1026, 9).expect("volume decodes");
    assert_eq!(v.block_address, 77);
    assert_eq!(v.virtual_oid, 1026);
    assert_eq!(v.fs_index, 1);
    assert_eq!(v.omap_oid, 1234);
    assert_eq!(v.root_tree_virtual_oid, 1026);
    assert_eq!(v.num_files, 10);
    assert_eq!(v.volume_name, "Data");
    assert_eq!(v.role_names, vec!["data"]);
    assert!(v.case_insensitive);
    assert_eq!(v.fs_flags, vec!["unencrypted"]);
    assert!(matches!(v.support_status, VolumeSupportStatus::Supported));
}

#[test]
fn decode_volume_summary_marks_unsupported_volumes() {
    let encrypted = volume_block(1026, 5, 0, 0);
    let v = decode_volume_summary(&encrypted, 77, 1026, 9).unwrap();
    assert!(matches!(v.support_status, VolumeSupportStatus::Unsupported(ref r) if r == "volume is encrypted at runtime"));
    let sealed = volume_block(1026, 5, APFS_FS_UNENCRYPTED, APFS_INCOMPAT_SEALED_VOLUME);
    let v = decode_volume_summary(&sealed, 77, 1026, 9).unwrap();
    assert!(matches!(
        v.support_status,
        VolumeSupportStatus::Unsupported(ref r) if r == "sealed system volumes are out of v1 raw scope"
    ));
}

#[test]
fn decode_volume_summary_refuses_wrong_oid_or_newer_xid() {
    let block = volume_block(1026, 5, APFS_FS_UNENCRYPTED, 0);
    assert!(matches!(decode_volume_summary(&block, 77, 1027, 9), Err(ScanError::InvalidObject(_))));
    assert!(matches!(decode_volume_summary(&block, 77, 1026, 4), Err(ScanError::InvalidObject(_))));
}
