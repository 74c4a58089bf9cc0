use apfs_fastindex::block_io::{put_u16, put_u64};
use apfs_fastindex::fs_record_body::{
    decode_fs_record, round_up_8, FsRecordValue, DREC_EXT_TYPE_SIBLING_ID, DREC_PREFIX_SIZE, DSTREAM_SIZE, DT_REG,
    FS_OBJECT_ID_MASK, FS_RECORD_TYPE_SHIFT, INODE_FIXED_SIZE, INO_EXT_TYPE_DOCUMENT_ID, INO_EXT_TYPE_DSTREAM,
    INO_EXT_TYPE_NAME, J_DREC_LEN_MASK, RAW_TYPE_DIR_REC, RAW_TYPE_INODE, RAW_TYPE_SIBLING_LINK, RAW_TYPE_SIBLING_MAP,
    RAW_TYPE_XATTR, XATTR_DATA_EMBEDDED, XATTR_DATA_STREAM, XATTR_VALUE_HEADER_SIZE,
};
use apfs_fastindex::ScanError;

fn drec_hashed_key(object_id: u64, name: &str) -> Vec<u8> {
    let mut key = Vec::new();
    let key_word =
        (object_id & FS_OBJECT_ID_MASK) | ((RAW_TYPE_DIR_REC as u64) << FS_RECORD_TYPE_SHIFT);
    let name_bytes = name.as_bytes();
    let name_len = name_bytes.len() as u32 + 1; // include trailing NUL
    let hash: u32 = 0;
    key.extend_from_slice(&key_word.to_le_bytes());
    key.extend_from_slice(&(hash | (name_len & J_DREC_LEN_MASK)).to_le_bytes());
    key.extend_from_slice(name_bytes);
    key.push(0);
    key
}

fn drec_value(file_id: u64, entry_type: u8) -> Vec<u8> {
    let mut value = vec![0u8; DREC_PREFIX_SIZE];
    put_u64(&mut value, 0, file_id);
    put_u64(&mut value, 8, 0);
    put_u16(&mut value, 0x10, entry_type as u16);
    value
}

fn inode_value() -> Vec<u8> {
    vec![0u8; INODE_FIXED_SIZE]
}

fn inode_value_with_xfields(xfields: &[(u8, u8, &[u8])]) -> Vec<u8> {
    let mut blob = Vec::new();
    let num = xfields.len() as u16;
    let mut used: u32 = 0;
    // Header placeholders.
    blob.extend_from_slice(&num.to_le_bytes());
    blob.extend_from_slice(&0u16.to_le_bytes());
    // Metadata table.
    for (x_type, x_flags, data) in xfields {
        blob.push(*x_type);
        blob.push(*x_flags);
        blob.extend_from_slice(&(data.len() as u16).to_le_bytes());
    }
    // Values, each padded to eight bytes.
    for (_, _, data) in xfields {
        blob.extend_from_slice(data);
        let pad = round_up_8(data.len() as u32) - data.len() as u32;
        blob.extend(std::iter::repeat_n(0u8, pad as usize));
        used += round_up_8(data.len() as u32);
    }
    // Patch xf_used_data.
    blob[2..4].copy_from_slice(&(used as u16).to_le_bytes());
    let mut value = inode_value();
    value.extend_from_slice(&blob);
    value
}

fn xattr_key(object_id: u64, name: &str) -> Vec<u8> {
    let mut key = Vec::new();
    let key_word =
        (object_id & FS_OBJECT_ID_MASK) | ((RAW_TYPE_XATTR as u64) << FS_RECORD_TYPE_SHIFT);
    let name_bytes = name.as_bytes();
    let name_len = name_bytes.len() as u16 + 1;
    key.extend_from_slice(&key_word.to_le_bytes());
    key.extend_from_slice(&name_len.to_le_bytes());
    key.extend_from_slice(name_bytes);
    key.push(0);
    key
}

fn xattr_value(flags: u16, payload: &[u8]) -> Vec<u8> {
    let mut value = Vec::new();
    value.extend_from_slice(&flags.to_le_bytes());
    value.extend_from_slice(&(payload.len() as u16).to_le_bytes());
    value.extend_from_slice(payload);
    value
}

fn inode_key(object_id: u64) -> Vec<u8> {
    let key_word =
        (object_id & FS_OBJECT_ID_MASK) | ((RAW_TYPE_INODE as u64) << FS_RECORD_TYPE_SHIFT);
    key_word.to_le_bytes().to_vec()
}

// ---- positive baseline ---- //

#[test]
fn decode_inode_with_dstream_and_name_xfields() {
    let name = b"hello\x00\x00\x00"; // 8-byte name with trailing NUL padding
    let mut dstream = vec![0u8; DSTREAM_SIZE];
    put_u64(&mut dstream, 0, 1234);
    put_u64(&mut dstream, 8, 4096);
    put_u64(&mut dstream, 16, 0);
    put_u64(&mut dstream, 24, 1234);
    put_u64(&mut dstream, 32, 0);
    let value = inode_value_with_xfields(&[
        (INO_EXT_TYPE_NAME, 0, &name[..6]),
        (INO_EXT_TYPE_DSTREAM, 0, &dstream),
    ]);
    let key = inode_key(42);
    let row = decode_fs_record(100, 0, &key, &value).expect("inode decode succeeds");
    match row.value {
        FsRecordValue::Inode(inode) => {
            assert_eq!(inode.inode_name.as_deref(), Some("hello"));
            let d = inode.dstream.unwrap();
            assert_eq!(d.size, 1234);
            assert_eq!(d.total_bytes_written, 1234);
            assert_eq!(inode.xfield_used_data, inode.xfield_padded_total);
        }
        other => panic!("unexpected value variant: {other:?}"),
    }
}

#[test]
fn decode_drec_with_sibling_id() {
    let key = drec_hashed_key(2, "alpha.txt");
    let mut sib = vec![0u8; 8];
    put_u64(&mut sib, 0, 7777);
    let mut value = drec_value(42, DT_REG);
    let blob = {
        let mut b = Vec::new();
        b.extend_from_slice(&1u16.to_le_bytes()); // xf_num_exts
        b.extend_from_slice(&8u16.to_le_bytes()); // xf_used_data
        b.push(DREC_EXT_TYPE_SIBLING_ID);
        b.push(0);
        b.extend_from_slice(&8u16.to_le_bytes()); // x_size=8
        b.extend_from_slice(&sib);
        b
    };
    value.extend_from_slice(&blob);
    let row = decode_fs_record(100, 1, &key, &value).expect("drec decode succeeds");
    match row.value {
        FsRecordValue::DirRec(drec) => {
            assert_eq!(drec.file_id, 42);
            assert_eq!(drec.entry_type, DT_REG);
            assert_eq!(drec.sibling_id, Some(7777));
        }
        other => panic!("unexpected value variant: {other:?}"),
    }
}

#[test]
fn decode_sibling_link_with_name() {
    let mut key = vec![0u8; 16];
    let key_word =
        (5u64 & FS_OBJECT_ID_MASK) | ((RAW_TYPE_SIBLING_LINK as u64) << FS_RECORD_TYPE_SHIFT);
    put_u64(&mut key, 0, key_word);
    put_u64(&mut key, 8, 42);
    let mut value = Vec::new();
    value.extend_from_slice(&100u64.to_le_bytes()); // parent_id
    let name = b"file.txt\x00";
    value.extend_from_slice(&(name.len() as u16).to_le_bytes());
    value.extend_from_slice(name);
    let row = decode_fs_record(100, 0, &key, &value).expect("sibling_link decode succeeds");
    match row.value {
        FsRecordValue::SiblingLink(body) => {
            assert_eq!(body.parent_id, 100);
            assert_eq!(body.name, "file.txt");
        }
        other => panic!("unexpected value variant: {other:?}"),
    }
}

// ---- fail-closed cases ---- //

#[test]
fn hard_stops_on_short_inode_value() {
    let key = inode_key(42);
    let short = vec![0u8; INODE_FIXED_SIZE - 1];
    let err = decode_fs_record(100, 0, &key, &short).expect_err("short inode is rejected");
    assert!(
        matches!(err, ScanError::InvalidObject(r) if r.contains("shorter than j_inode_val_t")),
        "unexpected error variant",
    );
}

#[test]
fn hard_stops_on_short_drec_value() {
    let key = drec_hashed_key(2, "a");
    let short = vec![0u8; DREC_PREFIX_SIZE - 1];
    let err = decode_fs_record(100, 0, &key, &short).expect_err("short drec is rejected");
    assert!(
        matches!(err, ScanError::InvalidObject(r) if r.contains("shorter than j_drec_val_t"))
    );
}

#[test]
fn hard_stops_on_drec_name_too_long() {
    // hashed key with hash | name_len indicating a name that would run
    // past the end of the key bytes.
    let mut key = Vec::new();
    let key_word =
        (2u64 & FS_OBJECT_ID_MASK) | ((RAW_TYPE_DIR_REC as u64) << FS_RECORD_TYPE_SHIFT);
    key.extend_from_slice(&key_word.to_le_bytes());
    // hash << 10 | name_len; name_len=200 but only 4 actual bytes follow.
    let hash_word: u32 = 200u32 & J_DREC_LEN_MASK;
    key.extend_from_slice(&hash_word.to_le_bytes());
    key.extend_from_slice(b"abc\x00");
    let value = drec_value(1, DT_REG);
    let err = decode_fs_record(100, 0, &key, &value).expect_err("name_len too long rejected");
    // Falls through to unhashed branch then fails; either way is a typed
    // hard stop on a name-length lie.
    assert!(matches!(err, ScanError::InvalidObject(r)
        if r.contains("name_len") || r.contains("not valid UTF-8") || r.contains("embedded NUL")));
}

#[test]
fn hard_stops_on_embedded_nul_in_drec_name() {
    // hashed form with a name "ab\0cd"
    let mut key = Vec::new();
    let key_word =
        (2u64 & FS_OBJECT_ID_MASK) | ((RAW_TYPE_DIR_REC as u64) << FS_RECORD_TYPE_SHIFT);
    key.extend_from_slice(&key_word.to_le_bytes());
    let name = b"ab\x00cd\x00";
    let hash_word: u32 = (name.len() as u32) & J_DREC_LEN_MASK;
    key.extend_from_slice(&hash_word.to_le_bytes());
    key.extend_from_slice(name);
    let value = drec_value(1, DT_REG);
    let err = decode_fs_record(100, 0, &key, &value).expect_err("embedded NUL rejected");
    assert!(matches!(err, ScanError::InvalidObject(r) if r.contains("embedded NUL")));
}

#[test]
fn hard_stops_on_non_utf8_drec_name() {
    let mut key = Vec::new();
    let key_word =
        (2u64 & FS_OBJECT_ID_MASK) | ((RAW_TYPE_DIR_REC as u64) << FS_RECORD_TYPE_SHIFT);
    key.extend_from_slice(&key_word.to_le_bytes());
    let name: &[u8] = &[0xff, 0xff, 0xff, 0x00];
    let hash_word: u32 = (name.len() as u32) & J_DREC_LEN_MASK;
    key.extend_from_slice(&hash_word.to_le_bytes());
    key.extend_from_slice(name);
    let value = drec_value(1, DT_REG);
    let err = decode_fs_record(100, 0, &key, &value).expect_err("non-utf8 rejected");
    assert!(matches!(err, ScanError::InvalidObject(r) if r.contains("not valid UTF-8")));
}

#[test]
fn hard_stops_on_unknown_drec_entry_type() {
    let key = drec_hashed_key(2, "alpha.txt");
    let value = drec_value(1, 0x9); // not in the known POSIX set
    let err = decode_fs_record(100, 0, &key, &value).expect_err("unknown drec type rejected");
    assert!(
        matches!(err, ScanError::InvalidObject(r) if r.contains("unknown POSIX entry type"))
    );
}

#[test]
fn hard_stops_on_duplicate_xfield_types() {
    let mut blob = Vec::new();
    blob.extend_from_slice(&2u16.to_le_bytes()); // xf_num_exts
    blob.extend_from_slice(&16u16.to_le_bytes()); // xf_used_data
    blob.push(INO_EXT_TYPE_DOCUMENT_ID);
    blob.push(0);
    blob.extend_from_slice(&8u16.to_le_bytes());
    blob.push(INO_EXT_TYPE_DOCUMENT_ID);
    blob.push(0);
    blob.extend_from_slice(&8u16.to_le_bytes());
    blob.extend_from_slice(&[0u8; 8]);
    blob.extend_from_slice(&[0u8; 8]);
    let mut value = inode_value();
    value.extend_from_slice(&blob);
    let key = inode_key(42);
    let err = decode_fs_record(100, 0, &key, &value).expect_err("duplicate xfield rejected");
    assert!(matches!(err, ScanError::InvalidObject(r) if r.contains("duplicate x_type")));
}

#[test]
fn hard_stops_on_xf_used_data_mismatch() {
    let mut blob = Vec::new();
    blob.extend_from_slice(&1u16.to_le_bytes());
    blob.extend_from_slice(&7u16.to_le_bytes()); // wrong used_data
    blob.push(INO_EXT_TYPE_NAME);
    blob.push(0);
    blob.extend_from_slice(&5u16.to_le_bytes()); // x_size=5, padded=8
    blob.extend_from_slice(b"hello\x00\x00\x00");
    let mut value = inode_value();
    value.extend_from_slice(&blob);
    let key = inode_key(42);
    let err =
        decode_fs_record(100, 0, &key, &value).expect_err("xf_used_data mismatch rejected");
    assert!(matches!(err, ScanError::InvalidObject(r) if r.contains("xf_used_data=")));
}

#[test]
fn hard_stops_on_xfield_value_out_of_bounds() {
    let mut blob = Vec::new();
    blob.extend_from_slice(&1u16.to_le_bytes());
    blob.extend_from_slice(&16u16.to_le_bytes());
    blob.push(INO_EXT_TYPE_NAME);
    blob.push(0);
    blob.extend_from_slice(&20u16.to_le_bytes()); // claims 20 bytes
    blob.extend_from_slice(b"only_a_few"); // 10 bytes
    let mut value = inode_value();
    value.extend_from_slice(&blob);
    let key = inode_key(42);
    let err = decode_fs_record(100, 0, &key, &value).expect_err("value out of bounds rejected");
    assert!(matches!(err, ScanError::InvalidObject(r) if r.contains("exceeds blob length")));
}

#[test]
fn hard_stops_on_wrong_dstream_size() {
    let mut blob = Vec::new();
    blob.extend_from_slice(&1u16.to_le_bytes());
    blob.extend_from_slice(&32u16.to_le_bytes());
    blob.push(INO_EXT_TYPE_DSTREAM);
    blob.push(0);
    blob.extend_from_slice(&32u16.to_le_bytes()); // wrong: should be 40
    blob.extend_from_slice(&[0u8; 32]);
    let mut value = inode_value();
    value.extend_from_slice(&blob);
    let key = inode_key(42);
    let err = decode_fs_record(100, 0, &key, &value).expect_err("wrong dstream size rejected");
    assert!(matches!(err, ScanError::InvalidObject(r)
        if r.contains("INO_EXT_TYPE_DSTREAM") && r.contains("expected 40")));
}

#[test]
fn hard_stops_on_wrong_sibling_id_size() {
    // Build a drec value with a 4-byte SIBLING_ID xfield.
    let key = drec_hashed_key(2, "alpha.txt");
    let mut blob = Vec::new();
    blob.extend_from_slice(&1u16.to_le_bytes());
    blob.extend_from_slice(&8u16.to_le_bytes());
    blob.push(DREC_EXT_TYPE_SIBLING_ID);
    blob.push(0);
    blob.extend_from_slice(&4u16.to_le_bytes()); // wrong: should be 8
    blob.extend_from_slice(&[1u8, 2, 3, 4, 0, 0, 0, 0]);
    let mut value = drec_value(7, DT_REG);
    value.extend_from_slice(&blob);
    let err = decode_fs_record(100, 0, &key, &value)
        .expect_err("wrong DREC_EXT_TYPE_SIBLING_ID size rejected");
    assert!(matches!(err, ScanError::InvalidObject(r)
        if r.contains("DREC_EXT_TYPE_SIBLING_ID") && r.contains("expected 8")));
}

#[test]
fn hard_stops_on_xattr_short_value() {
    let key = xattr_key(42, "com.apple.fs.symlink");
    let value = vec![0u8; XATTR_VALUE_HEADER_SIZE - 1];
    let err = decode_fs_record(100, 0, &key, &value).expect_err("short xattr rejected");
    assert!(
        matches!(err, ScanError::InvalidObject(r) if r.contains("shorter than \n             j_xattr_val_t") || r.contains("j_xattr_val_t"))
    );
}

#[test]
fn hard_stops_on_xattr_both_flags() {
    let key = xattr_key(42, "com.apple.fs.symlink");
    let value = xattr_value(XATTR_DATA_EMBEDDED | XATTR_DATA_STREAM, b"x");
    let err = decode_fs_record(100, 0, &key, &value).expect_err("both flags rejected");
    assert!(matches!(err, ScanError::InvalidObject(r) if r.contains("both or neither")));
}

#[test]
fn hard_stops_on_xattr_neither_flag() {
    let key = xattr_key(42, "com.apple.fs.symlink");
    let value = xattr_value(0, b"x");
    let err = decode_fs_record(100, 0, &key, &value).expect_err("no flag rejected");
    assert!(matches!(err, ScanError::InvalidObject(r) if r.contains("both or neither")));
}

#[test]
fn hard_stops_on_xattr_unknown_flag_bits() {
    let key = xattr_key(42, "com.apple.fs.symlink");
    let value = xattr_value(XATTR_DATA_EMBEDDED | 0x8000, b"x");
    let err = decode_fs_record(100, 0, &key, &value).expect_err("unknown flag bits rejected");
    assert!(matches!(err, ScanError::InvalidObject(r) if r.contains("unknown flag bits")));
}

#[test]
fn hard_stops_on_xattr_xdata_len_mismatch() {
    let key = xattr_key(42, "com.apple.fs.symlink");
    let mut value = Vec::new();
    value.extend_from_slice(&XATTR_DATA_EMBEDDED.to_le_bytes());
    value.extend_from_slice(&7u16.to_le_bytes()); // claim 7 bytes
    value.extend_from_slice(b"only5"); // only 5
    let err = decode_fs_record(100, 0, &key, &value).expect_err("xdata_len mismatch rejected");
    assert!(
        matches!(err, ScanError::InvalidObject(r) if r.contains("disagrees with xdata_len"))
    );
}

#[test]
fn hard_stops_on_xattr_stream_too_short() {
    let key = xattr_key(42, "com.apple.metadata.foo");
    // stream form needs at least 48 bytes; supply 16.
    let payload = vec![0u8; 16];
    let value = xattr_value(XATTR_DATA_STREAM, &payload);
    let err = decode_fs_record(100, 0, &key, &value).expect_err("short stream rejected");
    assert!(matches!(err, ScanError::InvalidObject(r) if r.contains("j_xattr_dstream_t")));
}

#[test]
fn hard_stops_on_sibling_link_name_len_overflow() {
    let mut key = vec![0u8; 16];
    let key_word =
        (5u64 & FS_OBJECT_ID_MASK) | ((RAW_TYPE_SIBLING_LINK as u64) << FS_RECORD_TYPE_SHIFT);
    put_u64(&mut key, 0, key_word);
    put_u64(&mut key, 8, 1);
    let mut value = Vec::new();
    value.extend_from_slice(&0u64.to_le_bytes()); // parent_id
    value.extend_from_slice(&200u16.to_le_bytes()); // name_len lie
    value.extend_from_slice(b"only short bytes");
    let err = decode_fs_record(100, 0, &key, &value)
        .expect_err("sibling_link name_len overflow rejected");
    assert!(matches!(err, ScanError::InvalidObject(r) if r.contains("name_len")));
}

#[test]
fn hard_stops_on_sibling_map_short_value() {
    let mut key = vec![0u8; 8];
    let key_word =
        (5u64 & FS_OBJECT_ID_MASK) | ((RAW_TYPE_SIBLING_MAP as u64) << FS_RECORD_TYPE_SHIFT);
    put_u64(&mut key, 0, key_word);
    let value = vec![0u8; 4];
    let err = decode_fs_record(100, 0, &key, &value).expect_err("short sibling_map rejected");
    assert!(matches!(err, ScanError::InvalidObject(r) if r.contains("shorter than 8")));
}

#[test]
fn hard_stops_on_drec_xfield_metadata_out_of_bounds() {
    let key = drec_hashed_key(2, "alpha.txt");
    let mut blob = Vec::new();
    blob.extend_from_slice(&50u16.to_le_bytes()); // 50 xfields claimed
    blob.extend_from_slice(&0u16.to_le_bytes());
    let mut value = drec_value(1, DT_REG);
    value.extend_from_slice(&blob);
    let err = decode_fs_record(100, 0, &key, &value).expect_err("xfield metadata oob rejected");
    assert!(matches!(err, ScanError::InvalidObject(r) if r.contains("runs past blob length")));
}

#[test]
fn hard_stops_on_xfield_blob_shorter_than_header() {
    let key = drec_hashed_key(2, "alpha.txt");
    let mut value = drec_value(1, DT_REG);
    value.push(0x01); // 1 stray byte after the fixed body
    let err =
        decode_fs_record(100, 0, &key, &value).expect_err("xfield blob < 4 bytes rejected");
    assert!(matches!(err, ScanError::InvalidObject(r) if r.contains("xf_blob_t")));
}

#[test]
fn fs_tree_internal_value_size_round_up() {
    assert_eq!(round_up_8(0), 0);
    assert_eq!(round_up_8(1), 8);
    assert_eq!(round_up_8(7), 8);
    assert_eq!(round_up_8(8), 8);
    assert_eq!(round_up_8(9), 16);
    assert_eq!(round_up_8(40), 40);
    assert_eq!(round_up_8(41), 48);
}
