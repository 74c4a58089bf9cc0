//! Decoder for the bodies of FS-tree leaf records: directory entries,
//! inodes, extended attributes, sibling links and maps, data-stream ids and
//! file extents, plus the extended fields (`xfields`) that inodes and
//! directory entries carry.
//!
//! Extended-field values start right after the `xf_blob_t` header and the
//! metadata table, and each value occupies its size rounded up to a
//! multiple of eight. Every malformed body is refused with
//! `ScanError::InvalidObject`; nothing is skipped silently.

use vstd::prelude::*;
use vstd::utf8::{decode_utf8, valid_utf8};

use crate::block_io::{le16, le32, le64, le_u16, le_u32, le_u64};
use crate::text::{
    decimal, hex_dump, hex_prefixed, msg_num, msg_num2, owned, push_decimal, push_hex_prefixed, to_hex, utf8_to_string,
};
use crate::ScanError;

verus! {

// ---- public types ------------------------------------------------------- //

/// One decoded FS-tree leaf record.
#[derive(Debug, Clone, PartialEq, Eq)]
pub struct FsRecordRow {
    pub node_paddr: u64,
    pub entry_index: u32,
    pub object_id: u64,
    pub raw_type: u8,
    pub family: &'static str,
    pub key_len: u32,
    pub value_len: u32,
    pub key: FsRecordKey,
    pub value: FsRecordValue,
    pub validation_notes: Vec<String>,
}

/// The decoded key of a record, by family.
#[derive(Debug, Clone, PartialEq, Eq)]
pub enum FsRecordKey {
    Plain,
    Named { raw_key_form: &'static str, name_len: u32, name: String, name_bytes_hex: String },
    SiblingLink { sibling_id: u64 },
    /// `j_file_extent_key_t`: the extent's logical offset in the file.
    FileExtent { logical_addr: u64 },
}

/// The decoded value of a record, by family.
#[derive(Debug, Clone, PartialEq, Eq)]
pub enum FsRecordValue {
    Inode(InodeBody),
    Xattr(XattrBody),
    SiblingLink(SiblingLinkBody),
    DstreamId { refcnt: Option<u32> },
    DirRec(DirRecBody),
    SiblingMap { file_id: Option<u64> },
    FileExtent(FileExtentBody),
    /// A well-formed record of a family this decoder does not interpret.
    Unsupported { reason: &'static str },
}

#[derive(Debug, Clone, PartialEq, Eq)]
pub struct InodeBody {
    pub parent_id: u64,
    pub private_id: u64,
    pub internal_flags: u64,
    pub nchildren_or_nlink: i32,
    pub bsd_flags: u32,
    pub owner: u32,
    pub group: u32,
    pub mode: u16,
    pub uncompressed_size: u64,
    pub has_uncompressed_size: bool,
    pub xfields: Vec<XfieldEntry>,
    pub xfield_used_data: u32,
    pub xfield_padded_total: u32,
    pub xfield_unused_trailing_bytes: i32,
    pub dstream: Option<DstreamFields>,
    pub sparse_bytes: Option<u64>,
    pub inode_name: Option<String>,
}

#[derive(Debug, Clone, PartialEq, Eq)]
pub struct DirRecBody {
    pub file_id: u64,
    pub date_added: u64,
    pub flags: u16,
    pub entry_type: u8,
    pub sibling_id: Option<u64>,
    pub xfields: Vec<XfieldEntry>,
    pub xfield_used_data: u32,
    pub xfield_padded_total: u32,
    pub xfield_unused_trailing_bytes: i32,
}

#[derive(Debug, Clone, PartialEq, Eq)]
pub struct XattrBody {
    pub flags: u16,
    pub xdata_len: u16,
    pub embedded: bool,
    pub stream: bool,
    pub payload_hex: String,
    pub payload_utf8: Option<String>,
    pub stream_xattr_obj_id: Option<u64>,
    pub stream_dstream: Option<DstreamFields>,
}

#[derive(Debug, Clone, PartialEq, Eq)]
pub struct SiblingLinkBody {
    pub parent_id: u64,
    pub name_len: u16,
    pub name: String,
    pub name_bytes_hex: String,
}

/// `j_file_extent_val_t`: the high four bits of `len_and_flags` are flags,
/// the low sixty bits the length in bytes.
#[derive(Debug, Clone, Copy, PartialEq, Eq, Structural)]
pub struct FileExtentBody {
    pub length_bytes: u64,
    pub flags: u8,
    pub phys_block_num: u64,
    pub crypto_id: u64,
}

#[derive(Debug, Clone, PartialEq, Eq)]
pub struct XfieldEntry {
    pub x_type: u8,
    pub x_flags: u8,
    pub x_size: u16,
    pub padded_length: u32,
    pub value_hex: String,
    pub interpreted: Option<XfieldInterpreted>,
}

#[derive(Debug, Clone, PartialEq, Eq)]
pub enum XfieldInterpreted {
    U64 { value: u64 },
    Utf8 { value: String },
    Dstream { value: DstreamFields },
}

/// `j_dstream_t`.
#[derive(Debug, Clone, Copy, PartialEq, Eq, Structural)]
pub struct DstreamFields {
    pub size: u64,
    pub alloced_size: u64,
    pub default_crypto_id: u64,
    pub total_bytes_written: u64,
    pub total_bytes_read: u64,
}

// ---- constants ---------------------------------------------------------- //

/// The low sixty bits of `j_key_t.obj_id_and_type`.
pub const FS_OBJECT_ID_MASK: u64 = 0x0fff_ffff_ffff_ffff;
pub const FS_RECORD_TYPE_SHIFT: u64 = 60;

pub const INODE_FIXED_SIZE: usize = 0x5C;
pub const DREC_PREFIX_SIZE: usize = 18;
pub const XATTR_VALUE_HEADER_SIZE: usize = 4;
/// `parent_id` (8 bytes) and `name_len` (2 bytes).
pub const SIBLING_LINK_FIXED_PREFIX: usize = 10;
pub const SIBLING_MAP_VALUE_SIZE: usize = 8;
pub const DSTREAM_SIZE: usize = 40;
pub const J_XATTR_DSTREAM_SIZE: usize = 48;
/// `j_file_extent_val_t` is 24 bytes.
pub const FILE_EXTENT_VALUE_MIN: usize = 24;

pub const INODE_HAS_UNCOMPRESSED_SIZE: u64 = 0x0004_0000;

pub const J_DREC_LEN_MASK: u32 = 0x0000_03FF;
pub const DREC_TYPE_MASK: u16 = 0x000F;

/// POSIX directory-entry types (`DT_*`) that APFS reuses.
pub const DT_FIFO: u8 = 1;
pub const DT_CHR: u8 = 2;
pub const DT_DIR: u8 = 4;
pub const DT_BLK: u8 = 6;
pub const DT_REG: u8 = 8;
pub const DT_LNK: u8 = 10;
pub const DT_SOCK: u8 = 12;
pub const DT_WHT: u8 = 14;

pub const XATTR_DATA_STREAM: u16 = 0x0001;
pub const XATTR_DATA_EMBEDDED: u16 = 0x0002;
pub const XATTR_FILE_SYSTEM_OWNED: u16 = 0x0004;
pub const XATTR_KNOWN_FLAG_BITS: u16 = 0x0007;

pub const RAW_TYPE_INODE: u8 = 3;
pub const RAW_TYPE_XATTR: u8 = 4;
pub const RAW_TYPE_SIBLING_LINK: u8 = 5;
pub const RAW_TYPE_DSTREAM_ID: u8 = 6;
pub const RAW_TYPE_FILE_EXTENT: u8 = 8;
pub const RAW_TYPE_DIR_REC: u8 = 9;
pub const RAW_TYPE_SIBLING_MAP: u8 = 12;

pub const INO_EXT_TYPE_SNAP_XID: u8 = 1;
pub const INO_EXT_TYPE_DELTA_TREE_OID: u8 = 2;
pub const INO_EXT_TYPE_DOCUMENT_ID: u8 = 3;
pub const INO_EXT_TYPE_NAME: u8 = 4;
pub const INO_EXT_TYPE_PREV_FSIZE: u8 = 5;
pub const INO_EXT_TYPE_FINDER_INFO: u8 = 7;
pub const INO_EXT_TYPE_DSTREAM: u8 = 8;
pub const INO_EXT_TYPE_DIR_STATS_KEY: u8 = 10;
pub const INO_EXT_TYPE_FS_UUID: u8 = 11;
pub const INO_EXT_TYPE_SPARSE_BYTES: u8 = 13;
pub const INO_EXT_TYPE_RDEV: u8 = 14;
pub const INO_EXT_TYPE_PURGEABLE_FLAGS: u8 = 15;
pub const INO_EXT_TYPE_ORIG_SYNC_ROOT_ID: u8 = 16;

pub const DREC_EXT_TYPE_SIBLING_ID: u8 = 1;

// ---- small pieces -------------------------------------------------------- //

/// The family name of a record type nibble.
pub open spec fn family_name(raw_type: u8) -> Seq<char> {
    if raw_type == 0x0 {
        "any"@
    } else if raw_type == 0x1 {
        "snap_metadata"@
    } else if raw_type == 0x2 {
        "extent_reference"@
    } else if raw_type == 0x3 {
        "inode"@
    } else if raw_type == 0x4 {
        "xattr"@
    } else if raw_type == 0x5 {
        "sibling_link"@
    } else if raw_type == 0x6 {
        "dstream_id"@
    } else if raw_type == 0x7 {
        "crypto_state"@
    } else if raw_type == 0x8 {
        "file_extent"@
    } else if raw_type == 0x9 {
        "dir_rec"@
    } else if raw_type == 0xa {
        "dir_stats"@
    } else if raw_type == 0xb {
        "snap_name"@
    } else if raw_type == 0xc {
        "sibling_map"@
    } else if raw_type == 0xd {
        "file_info"@
    } else {
        "unknown"@
    }
}

/// The family name of a record type nibble (`unknown` past `0xd`).
pub fn record_family_name(raw_type: u8) -> (r: &'static str)
    ensures
        r@ == family_name(raw_type),
{
    match raw_type {
        0x0 => "any",
        0x1 => "snap_metadata",
        0x2 => "extent_reference",
        0x3 => "inode",
        0x4 => "xattr",
        0x5 => "sibling_link",
        0x6 => "dstream_id",
        0x7 => "crypto_state",
        0x8 => "file_extent",
        0x9 => "dir_rec",
        0xa => "dir_stats",
        0xb => "snap_name",
        0xc => "sibling_map",
        0xd => "file_info",
        _ => "unknown",
    }
}

/// `v` rounded up to a multiple of eight.
pub open spec fn round8(v: int) -> int {
    (v + 7) / 8 * 8
}

/// Rounding up to eight gives the least multiple of eight that is not
/// below the value.
pub proof fn lemma_round8_is_least_multiple(v: int)
    requires
        v >= 0,
    ensures
        round8(v) % 8 == 0,
        v <= round8(v) < v + 8,
        v % 8 == 0 ==> round8(v) == v,
{
}

/// Rounds `value` up to a multiple of eight.
pub fn round_up_8(value: u32) -> (r: u32)
    requires
        value <= 0xffff_fff8,
    ensures
        r == round8(value as int),
{
    let bumped: u32 = value + 7;
    let r = bumped & !7u32;
    assert(r == bumped / 8 * 8) by (bit_vector)
        requires
            r == bumped & !7u32,
    ;
    r
}

/// `bytes` without one trailing NUL, if it ends with one.
pub open spec fn strip_nul(bytes: Seq<u8>) -> Seq<u8> {
    if bytes.len() > 0 && bytes.last() == 0 {
        bytes.drop_last()
    } else {
        bytes
    }
}

fn strip_trailing_nul(bytes: &[u8]) -> (r: &[u8])
    ensures
        r@ == strip_nul(bytes@),
{
    let n = bytes.len();
    if n > 0 && bytes[n - 1] == 0 {
        let r = slice_prefix(bytes, n - 1);
        assert(r@ =~= bytes@.drop_last());
        r
    } else {
        bytes
    }
}

/// `bytes[..n]`.
fn slice_prefix(bytes: &[u8], n: usize) -> (r: &[u8])
    requires
        n <= bytes@.len(),
    ensures
        r@ == bytes@.subrange(0, n as int),
{
    slice_range(bytes, 0, n)
}

/// `bytes[start..end]`.
pub fn slice_range(bytes: &[u8], start: usize, end: usize) -> (r: &[u8])
    requires
        start <= end <= bytes@.len(),
    ensures
        r@ == bytes@.subrange(start as int, end as int),
{
    let (head, _) = bytes.split_at(end);
    let (_, mid) = head.split_at(start);
    assert(mid@ =~= bytes@.subrange(start as int, end as int));
    mid
}

/// A name is accepted when, after one trailing NUL is stripped, it is
/// non-empty, holds no NUL and is valid UTF-8.
pub open spec fn name_ok(bytes: Seq<u8>) -> bool {
    let s = strip_nul(bytes);
    &&& bytes.len() > 0
    &&& s.len() > 0
    &&& !s.contains(0u8)
    &&& valid_utf8(s)
}

/// The text of an accepted name.
pub open spec fn name_text(bytes: Seq<u8>) -> Seq<char> {
    decode_utf8(strip_nul(bytes))
}

/// `context`, ` at node `, the decimal node address, ` entry `, the
/// decimal entry index, then `rest`.
pub open spec fn at_node_text(context: Seq<char>, node_paddr: u64, entry_index: u32, rest: Seq<char>) -> Seq<char> {
    context + " at node "@ + decimal(node_paddr as nat) + " entry "@ + decimal(entry_index as nat) + rest
}

fn at_node(context: &str, node_paddr: u64, entry_index: u32, rest: &str) -> (r: String)
    ensures
        r@ == at_node_text(context@, node_paddr, entry_index, rest@),
{
    let mut out = owned(context);
    out.append(" at node ");
    push_decimal(&mut out, node_paddr);
    out.append(" entry ");
    push_decimal(&mut out, entry_index as u64);
    out.append(rest);
    out
}

fn contains_nul(bytes: &[u8]) -> (r: bool)
    ensures
        r == bytes@.contains(0u8),
{
    let mut i: usize = 0;
    while i < bytes.len()
        invariant
            i <= bytes@.len(),
            forall|k: int| 0 <= k < i ==> bytes@[k] != 0u8,
        decreases bytes@.len() - i,
    {
        if bytes[i] == 0 {
            assert(bytes@[i as int] == 0u8);
            return true;
        }
        i = i + 1;
    }
    false
}

/// Decodes a record name: one trailing NUL is stripped; an empty name, a
/// name of only a NUL, an embedded NUL and invalid UTF-8 are refused.
fn decode_name(name_bytes: &[u8], context: &str, node_paddr: u64, entry_index: u32) -> (r: Result<
    String,
    ScanError,
>)
    ensures
        match r {
            Ok(s) => name_ok(name_bytes@) && s@ == name_text(name_bytes@),
            Err(e) => !name_ok(name_bytes@) && e is InvalidObject,
        },
{
    if name_bytes.len() == 0 {
        return Err(ScanError::InvalidObject(at_node(context, node_paddr, entry_index, " has empty name")));
    }
    let stripped = strip_trailing_nul(name_bytes);
    if stripped.len() == 0 {
        return Err(ScanError::InvalidObject(at_node(context, node_paddr, entry_index, " has only-NUL name")));
    }
    if contains_nul(stripped) {
        return Err(ScanError::InvalidObject(at_node(context, node_paddr, entry_index, " contains embedded NUL")));
    }
    match utf8_to_string(stripped) {
        Some(s) => Ok(s),
        None => Err(ScanError::InvalidObject(at_node(context, node_paddr, entry_index, " is not valid UTF-8"))),
    }
}

/// `j_drec_val_t` entry types accepted: the POSIX `DT_*` set.
pub open spec fn known_drec_entry_type(value: u8) -> bool {
    value == DT_FIFO || value == DT_CHR || value == DT_DIR || value == DT_BLK || value == DT_REG
        || value == DT_LNK || value == DT_SOCK || value == DT_WHT
}

pub fn is_known_drec_entry_type(value: u8) -> (r: bool)
    ensures
        r == known_drec_entry_type(value),
{
    value == DT_FIFO || value == DT_CHR || value == DT_DIR || value == DT_BLK || value == DT_REG
        || value == DT_LNK || value == DT_SOCK || value == DT_WHT
}

/// The `j_dstream_t` stored at the start of `bytes`.
pub open spec fn dstream_of(bytes: Seq<u8>) -> DstreamFields {
    DstreamFields {
        size: le64(bytes, 0) as u64,
        alloced_size: le64(bytes, 8) as u64,
        default_crypto_id: le64(bytes, 16) as u64,
        total_bytes_written: le64(bytes, 24) as u64,
        total_bytes_read: le64(bytes, 32) as u64,
    }
}

/// Reads a `j_dstream_t`; fewer than 40 bytes are refused.
pub fn parse_dstream(bytes: &[u8]) -> (r: Result<DstreamFields, ScanError>)
    ensures
        match r {
            Ok(d) => bytes@.len() >= DSTREAM_SIZE && d == dstream_of(bytes@),
            Err(e) => bytes@.len() < DSTREAM_SIZE && e is InvalidObject,
        },
{
    if bytes.len() < DSTREAM_SIZE {
        return Err(ScanError::InvalidObject(msg_num(
            "dstream value is ",
            bytes.len() as u64,
            " bytes, expected 40",
        )));
    }
    Ok(DstreamFields {
        size: le_u64(bytes, 0),
        alloced_size: le_u64(bytes, 8),
        default_crypto_id: le_u64(bytes, 16),
        total_bytes_written: le_u64(bytes, 24),
        total_bytes_read: le_u64(bytes, 32),
    })
}

/// The file extent stored in a value of at least 24 bytes.
pub open spec fn file_extent_of(value: Seq<u8>) -> FileExtentBody {
    let len_and_flags = le64(value, 0) as u64;
    FileExtentBody {
        length_bytes: len_and_flags & FS_OBJECT_ID_MASK,
        flags: ((len_and_flags >> FS_RECORD_TYPE_SHIFT) as u8) & 0xF,
        phys_block_num: le64(value, 8) as u64,
        crypto_id: le64(value, 16) as u64,
    }
}

fn decode_file_extent(value: &[u8], node_paddr: u64, entry_index: u32) -> (r: Result<
    FileExtentBody,
    ScanError,
>)
    ensures
        match r {
            Ok(b) => value@.len() >= FILE_EXTENT_VALUE_MIN && b == file_extent_of(value@),
            Err(e) => value@.len() < FILE_EXTENT_VALUE_MIN && e is InvalidObject,
        },
{
    if value.len() < FILE_EXTENT_VALUE_MIN {
        return Err(ScanError::InvalidObject(at_node(
            "file_extent value",
            node_paddr,
            entry_index,
            " shorter than 24 bytes",
        )));
    }
    let len_and_flags = le_u64(value, 0);
    Ok(FileExtentBody {
        length_bytes: len_and_flags & FS_OBJECT_ID_MASK,
        flags: ((len_and_flags >> FS_RECORD_TYPE_SHIFT) as u8) & 0xF,
        phys_block_num: le_u64(value, 8),
        crypto_id: le_u64(value, 16),
    })
}

// ---- keys ---------------------------------------------------------------- //

/// What a record key decodes to.
pub enum KeySpec {
    Plain,
    Named { form: Seq<char>, name_len: u32, name_bytes: Seq<u8> },
    SiblingLink { sibling_id: u64 },
    FileExtent { logical_addr: u64 },
    Refused,
}

/// A named key built from `name_bytes`, or `Refused` when the name is bad.
pub open spec fn named_key(form: Seq<char>, name_len: u32, name_bytes: Seq<u8>) -> KeySpec {
    if name_ok(name_bytes) {
        KeySpec::Named { form, name_len, name_bytes }
    } else {
        KeySpec::Refused
    }
}

/// The name length of the hashed directory-entry key form.
pub open spec fn drec_hashed_len(key: Seq<u8>) -> u32 {
    (le32(key, 8) as u32) & J_DREC_LEN_MASK
}

/// `j_drec_hashed_key_t` is preferred; the unhashed `j_drec_key_t` form is
/// used when the hashed name length does not fit.
pub open spec fn drec_key_spec(key: Seq<u8>) -> KeySpec {
    let hl = drec_hashed_len(key);
    if key.len() >= 12 && hl > 0 && 12 + hl <= key.len() {
        named_key("hashed"@, hl, key.subrange(12, 12 + hl))
    } else if key.len() < 10 {
        KeySpec::Refused
    } else {
        let nl = le16(key, 8);
        if nl == 0 || 10 + nl > key.len() {
            KeySpec::Refused
        } else {
            named_key("unhashed"@, nl as u32, key.subrange(10, 10 + nl))
        }
    }
}

/// `j_xattr_key_t`: a 16-bit name length after the header, then the name.
pub open spec fn xattr_key_spec(key: Seq<u8>) -> KeySpec {
    if key.len() < 10 {
        KeySpec::Refused
    } else {
        let nl = le16(key, 8);
        if nl == 0 || 10 + nl > key.len() {
            KeySpec::Refused
        } else {
            named_key("xattr"@, nl as u32, key.subrange(10, 10 + nl))
        }
    }
}

/// What the key of a record of type `raw_type` decodes to.
pub open spec fn key_spec(raw_type: u8, key: Seq<u8>) -> KeySpec {
    if raw_type == RAW_TYPE_DIR_REC {
        drec_key_spec(key)
    } else if raw_type == RAW_TYPE_XATTR {
        xattr_key_spec(key)
    } else if raw_type == RAW_TYPE_SIBLING_LINK {
        if key.len() < 16 {
            KeySpec::Refused
        } else {
            KeySpec::SiblingLink { sibling_id: le64(key, 8) as u64 }
        }
    } else if raw_type == RAW_TYPE_FILE_EXTENT {
        if key.len() < 16 {
            KeySpec::Refused
        } else {
            KeySpec::FileExtent { logical_addr: le64(key, 8) as u64 }
        }
    } else {
        KeySpec::Plain
    }
}

/// `k` is the decoded form of `m`.
pub open spec fn key_matches(k: FsRecordKey, m: KeySpec) -> bool {
    match (k, m) {
        (FsRecordKey::Plain, KeySpec::Plain) => true,
        (
            FsRecordKey::Named { raw_key_form, name_len, name, name_bytes_hex },
            KeySpec::Named { form, name_len: nl, name_bytes },
        ) => {
            &&& raw_key_form@ == form
            &&& name_len == nl
            &&& name@ == name_text(name_bytes)
            &&& name_bytes_hex@ == hex_dump(name_bytes)
        },
        (FsRecordKey::SiblingLink { sibling_id }, KeySpec::SiblingLink { sibling_id: s }) => sibling_id == s,
        (FsRecordKey::FileExtent { logical_addr }, KeySpec::FileExtent { logical_addr: l }) => logical_addr == l,
        _ => false,
    }
}

/// `r` is what decoding a key described by `m` returns.
pub open spec fn key_result(r: Result<FsRecordKey, ScanError>, m: KeySpec) -> bool {
    match r {
        Ok(k) => key_matches(k, m),
        Err(e) => m is Refused && e is InvalidObject,
    }
}

fn named(
    form: &'static str,
    name_len: u32,
    name_bytes: &[u8],
    context: &str,
    node_paddr: u64,
    entry_index: u32,
) -> (r: Result<FsRecordKey, ScanError>)
    ensures
        key_result(r, named_key(form@, name_len, name_bytes@)),
{
    let name = decode_name(name_bytes, context, node_paddr, entry_index)?;
    Ok(FsRecordKey::Named { raw_key_form: form, name_len, name, name_bytes_hex: to_hex(name_bytes) })
}

fn name_len_error(what: &str, node_paddr: u64, entry_index: u32, name_len: u32, key_len: usize) -> (r: ScanError)
    ensures
        r is InvalidObject,
{
    let mut msg = at_node(what, node_paddr, entry_index, " has name_len ");
    push_decimal(&mut msg, name_len as u64);
    msg.append(" that does not fit in ");
    push_decimal(&mut msg, key_len as u64);
    msg.append(" bytes");
    ScanError::InvalidObject(msg)
}

fn decode_drec_key(key: &[u8], node_paddr: u64, entry_index: u32) -> (r: Result<FsRecordKey, ScanError>)
    ensures
        key_result(r, drec_key_spec(key@)),
{
    if key.len() >= 12 {
        let hash_word = le_u32(key, 8);
        let name_len = hash_word & J_DREC_LEN_MASK;
        if name_len > 0 && name_len as usize <= key.len() - 12 {
            let name_bytes = slice_range(key, 12, 12 + name_len as usize);
            proof {
                reveal_strlit("hashed");
            }
            return named("hashed", name_len, name_bytes, "drec_hashed_key", node_paddr, entry_index);
        }
    }
    if key.len() < 10 {
        return Err(ScanError::InvalidObject(at_node(
            "drec key",
            node_paddr,
            entry_index,
            " shorter than 10-byte j_drec_key_t",
        )));
    }
    let name_len = le_u16(key, 8) as u32;
    if name_len == 0 || name_len as usize > key.len() - 10 {
        return Err(name_len_error("drec key", node_paddr, entry_index, name_len, key.len()));
    }
    let name_bytes = slice_range(key, 10, 10 + name_len as usize);
    named("unhashed", name_len, name_bytes, "drec_key", node_paddr, entry_index)
}

fn decode_xattr_key(key: &[u8], node_paddr: u64, entry_index: u32) -> (r: Result<FsRecordKey, ScanError>)
    ensures
        key_result(r, xattr_key_spec(key@)),
{
    if key.len() < 10 {
        return Err(ScanError::InvalidObject(at_node(
            "xattr key",
            node_paddr,
            entry_index,
            " shorter than 10-byte j_xattr_key_t",
        )));
    }
    let name_len = le_u16(key, 8) as u32;
    if name_len == 0 || name_len as usize > key.len() - 10 {
        return Err(name_len_error("xattr key", node_paddr, entry_index, name_len, key.len()));
    }
    let name_bytes = slice_range(key, 10, 10 + name_len as usize);
    named("xattr", name_len, name_bytes, "xattr_key", node_paddr, entry_index)
}

fn decode_key(raw_type: u8, key: &[u8], node_paddr: u64, entry_index: u32) -> (r: Result<
    FsRecordKey,
    ScanError,
>)
    ensures
        key_result(r, key_spec(raw_type, key@)),
{
    if raw_type == RAW_TYPE_DIR_REC {
        decode_drec_key(key, node_paddr, entry_index)
    } else if raw_type == RAW_TYPE_XATTR {
        decode_xattr_key(key, node_paddr, entry_index)
    } else if raw_type == RAW_TYPE_SIBLING_LINK || raw_type == RAW_TYPE_FILE_EXTENT {
        if key.len() < 16 {
            return Err(ScanError::InvalidObject(at_node(
                if raw_type == RAW_TYPE_SIBLING_LINK { "sibling_link key" } else { "file_extent key" },
                node_paddr,
                entry_index,
                " shorter than 16 bytes",
            )));
        }
        let id = le_u64(key, 8);
        if raw_type == RAW_TYPE_SIBLING_LINK {
            Ok(FsRecordKey::SiblingLink { sibling_id: id })
        } else {
            Ok(FsRecordKey::FileExtent { logical_addr: id })
        }
    } else {
        Ok(FsRecordKey::Plain)
    }
}

// ---- extended fields ----------------------------------------------------- //

/// Which record an xfield blob belongs to; it decides which fixed sizes are
/// required.
#[derive(Debug, Clone, Copy, PartialEq, Eq, Structural)]
pub enum XfieldContext {
    Inode,
    DirRec,
}

/// `xf_num_exts`, or zero for an empty blob.
pub open spec fn xf_count(blob: Seq<u8>) -> int {
    if blob.len() == 0 {
        0
    } else {
        le16(blob, 0)
    }
}

/// `xf_used_data`, or zero for an empty blob.
pub open spec fn xf_used(blob: Seq<u8>) -> int {
    if blob.len() == 0 {
        0
    } else {
        le16(blob, 2)
    }
}

/// End of the `xf_blob_t` header and metadata table.
pub open spec fn xf_meta_end(blob: Seq<u8>) -> int {
    if blob.len() == 0 {
        0
    } else {
        4 + 4 * xf_count(blob)
    }
}

pub open spec fn xf_type(blob: Seq<u8>, i: int) -> u8 {
    blob[4 + 4 * i]
}

pub open spec fn xf_flags(blob: Seq<u8>, i: int) -> u8 {
    blob[5 + 4 * i]
}

pub open spec fn xf_size(blob: Seq<u8>, i: int) -> int {
    le16(blob, 6 + 4 * i)
}

/// Sum of the padded sizes of the first `i` fields.
pub open spec fn padded_sum(blob: Seq<u8>, i: int) -> int
    decreases i,
{
    if i <= 0 {
        0
    } else {
        padded_sum(blob, i - 1) + round8(xf_size(blob, i - 1))
    }
}

/// Where the value of field `i` starts.
pub open spec fn xf_offset(blob: Seq<u8>, i: int) -> int {
    xf_meta_end(blob) + padded_sum(blob, i)
}

/// The value bytes of field `i`.
pub open spec fn xf_data(blob: Seq<u8>, i: int) -> Seq<u8> {
    blob.subrange(xf_offset(blob, i), xf_offset(blob, i) + xf_size(blob, i))
}

/// The fixed size some field types must have in a context.
pub open spec fn required_xfield_size(ctx: XfieldContext, x_type: u8) -> Option<int> {
    match ctx {
        XfieldContext::Inode => if x_type == INO_EXT_TYPE_DSTREAM {
            Some(40)
        } else if x_type == INO_EXT_TYPE_SPARSE_BYTES {
            Some(8)
        } else {
            None
        },
        XfieldContext::DirRec => if x_type == DREC_EXT_TYPE_SIBLING_ID {
            Some(8)
        } else {
            None
        },
    }
}

/// Field `i` is refused: its type repeats an earlier one, its value runs
/// past the blob, a required size disagrees, a running total overflows, or
/// the padded cursor leaves the blob while fields remain.
pub open spec fn xf_field_fails(blob: Seq<u8>, ctx: XfieldContext, i: int) -> bool {
    ||| exists|j: int| 0 <= j < i && xf_type(blob, j) == xf_type(blob, i)
    ||| xf_offset(blob, i) + xf_size(blob, i) > blob.len()
    ||| (required_xfield_size(ctx, xf_type(blob, i)) matches Some(n) && xf_size(blob, i) != n)
    ||| padded_sum(blob, i + 1) > u32::MAX
    ||| xf_offset(blob, i + 1) > usize::MAX
    ||| (xf_offset(blob, i + 1) > blob.len() && i + 1 < xf_count(blob))
}

/// An xfield blob is refused when it is shorter than its header, its
/// metadata table runs past it, any field is refused, or `xf_used_data`
/// differs from the sum of the padded sizes. An empty blob has no fields.
pub open spec fn xfields_refused(blob: Seq<u8>, ctx: XfieldContext) -> bool {
    &&& blob.len() != 0
    &&& {
        ||| blob.len() < 4
        ||| xf_meta_end(blob) > blob.len()
        ||| exists|i: int| 0 <= i < xf_count(blob) && #[trigger] xf_field_fails(blob, ctx, i)
        ||| xf_used(blob) != padded_sum(blob, xf_count(blob))
    }
}

/// Types whose value is an 8-byte little-endian integer.
pub open spec fn u64_xfield_type(t: u8) -> bool {
    t == INO_EXT_TYPE_SNAP_XID || t == INO_EXT_TYPE_DELTA_TREE_OID || t == INO_EXT_TYPE_DOCUMENT_ID
        || t == INO_EXT_TYPE_PREV_FSIZE || t == INO_EXT_TYPE_SPARSE_BYTES || t == INO_EXT_TYPE_RDEV
        || t == INO_EXT_TYPE_ORIG_SYNC_ROOT_ID
}

/// `x` is the interpretation of a field of type `t` with value `data`:
/// integers of exactly eight bytes, names that are UTF-8 after one trailing
/// NUL is stripped, data streams of at least forty bytes; nothing else.
pub open spec fn interp_matches(x: Option<XfieldInterpreted>, t: u8, data: Seq<u8>) -> bool {
    if u64_xfield_type(t) {
        if data.len() == 8 {
            x == Some(XfieldInterpreted::U64 { value: le64(data, 0) as u64 })
        } else {
            x is None
        }
    } else if t == INO_EXT_TYPE_NAME {
        if valid_utf8(strip_nul(data)) {
            x matches Some(XfieldInterpreted::Utf8 { value }) && value@ == decode_utf8(strip_nul(data))
        } else {
            x is None
        }
    } else if t == INO_EXT_TYPE_DSTREAM {
        if data.len() >= DSTREAM_SIZE {
            x == Some(XfieldInterpreted::Dstream { value: dstream_of(data) })
        } else {
            x is None
        }
    } else {
        x is None
    }
}

/// `e` is field `i` of `blob`.
pub open spec fn entry_matches(e: XfieldEntry, blob: Seq<u8>, i: int) -> bool {
    &&& e.x_type == xf_type(blob, i)
    &&& e.x_flags == xf_flags(blob, i)
    &&& e.x_size == xf_size(blob, i)
    &&& e.padded_length == round8(xf_size(blob, i))
    &&& e.value_hex@ == hex_dump(xf_data(blob, i))
    &&& interp_matches(e.interpreted, e.x_type, xf_data(blob, i))
}

fn interpret_xfield(x_type: u8, data: &[u8]) -> (r: Option<XfieldInterpreted>)
    ensures
        interp_matches(r, x_type, data@),
{
    if x_type == INO_EXT_TYPE_SNAP_XID || x_type == INO_EXT_TYPE_DELTA_TREE_OID || x_type
        == INO_EXT_TYPE_DOCUMENT_ID || x_type == INO_EXT_TYPE_PREV_FSIZE || x_type
        == INO_EXT_TYPE_SPARSE_BYTES || x_type == INO_EXT_TYPE_RDEV || x_type
        == INO_EXT_TYPE_ORIG_SYNC_ROOT_ID {
        if data.len() == 8 {
            Some(XfieldInterpreted::U64 { value: le_u64(data, 0) })
        } else {
            None
        }
    } else if x_type == INO_EXT_TYPE_NAME {
        match utf8_to_string(strip_trailing_nul(data)) {
            Some(text) => Some(XfieldInterpreted::Utf8 { value: text }),
            None => None,
        }
    } else if x_type == INO_EXT_TYPE_DSTREAM {
        match parse_dstream(data) {
            Ok(d) => Some(XfieldInterpreted::Dstream { value: d }),
            Err(_) => None,
        }
    } else {
        None
    }
}

/// The decoded fields of one blob with its totals.
pub struct XfieldResult {
    pub fields: Vec<XfieldEntry>,
    pub xf_used_data: u32,
    pub padded_total: u32,
    pub unused_trailing_bytes: i32,
}

/// `x` is the decoding of an accepted blob.
pub open spec fn xfield_result_matches(x: XfieldResult, blob: Seq<u8>) -> bool {
    &&& x.fields@.len() == xf_count(blob)
    &&& forall|i: int| 0 <= i < xf_count(blob) ==> #[trigger] entry_matches(x.fields@[i], blob, i)
    &&& x.xf_used_data == xf_used(blob)
    &&& x.padded_total == padded_sum(blob, xf_count(blob))
    &&& x.unused_trailing_bytes == (blob.len() - xf_meta_end(blob) - padded_sum(blob, xf_count(blob))) as i32
}

/// The name of a context in messages.
pub open spec fn context_label(ctx: XfieldContext) -> Seq<char> {
    match ctx {
        XfieldContext::Inode => "inode"@,
        XfieldContext::DirRec => "drec"@,
    }
}

fn context_name(ctx: XfieldContext) -> (r: &'static str)
    ensures
        r@ == context_label(ctx),
{
    match ctx {
        XfieldContext::Inode => "inode",
        XfieldContext::DirRec => "drec",
    }
}

fn xfield_error(ctx: XfieldContext, node_paddr: u64, entry_index: u32, rest: &str) -> (r: ScanError)
    ensures
        r is InvalidObject,
{
    let mut msg = owned(context_name(ctx));
    msg.append(" xfield");
    ScanError::InvalidObject(at_node(msg.as_str(), node_paddr, entry_index, rest))
}

fn contains_byte(v: &Vec<u8>, b: u8) -> (r: bool)
    ensures
        r == v@.contains(b),
{
    let mut i: usize = 0;
    while i < v.len()
        invariant
            i <= v@.len(),
            forall|k: int| 0 <= k < i ==> v@[k] != b,
        decreases v@.len() - i,
    {
        if v[i] == b {
            assert(v@[i as int] == b);
            return true;
        }
        i = i + 1;
    }
    false
}

proof fn lemma_round8_bounds(v: int)
    requires
        v >= 0,
    ensures
        v <= round8(v) <= v + 7,
        round8(v) >= 0,
{
}

/// Checks a required fixed size for the field type in this context.
fn check_required_size(ctx: XfieldContext, x_type: u8, x_size: u16, node_paddr: u64, entry_index: u32) -> (r:
    Result<(), ScanError>)
    ensures
        match r {
            Ok(_) => !(required_xfield_size(ctx, x_type) matches Some(n) && x_size != n),
            Err(e) => (required_xfield_size(ctx, x_type) matches Some(n) && x_size != n) && e is InvalidObject,
        },
{
    let (expected, name): (u16, &str) = match ctx {
        XfieldContext::Inode => if x_type == INO_EXT_TYPE_DSTREAM {
            (40, "INO_EXT_TYPE_DSTREAM")
        } else if x_type == INO_EXT_TYPE_SPARSE_BYTES {
            (8, "INO_EXT_TYPE_SPARSE_BYTES")
        } else {
            return Ok(());
        },
        XfieldContext::DirRec => if x_type == DREC_EXT_TYPE_SIBLING_ID {
            (8, "DREC_EXT_TYPE_SIBLING_ID")
        } else {
            return Ok(());
        },
    };
    if x_size != expected {
        let mut rest = owned(" has x_size ");
        push_decimal(&mut rest, x_size as u64);
        rest.append(", expected ");
        push_decimal(&mut rest, expected as u64);
        let mut what = owned(" ");
        what.append(name);
        let mut msg = owned(context_name(ctx));
        msg.append(" xfield");
        msg.append(what.as_str());
        return Err(ScanError::InvalidObject(at_node(msg.as_str(), node_paddr, entry_index, rest.as_str())));
    }
    Ok(())
}

/// Decodes an xfield blob: the header, the metadata table and each value
/// at the single running cursor, every value taking its size rounded up to
/// eight.
#[verifier::rlimit(40)]
pub fn decode_xfields(blob: &[u8], ctx: XfieldContext, node_paddr: u64, entry_index: u32) -> (r: Result<
    XfieldResult,
    ScanError,
>)
    ensures
        match r {
            Ok(x) => !xfields_refused(blob@, ctx) && xfield_result_matches(x, blob@),
            Err(e) => xfields_refused(blob@, ctx) && e is InvalidObject,
        },
{
    let len = blob.len();
    if len == 0 {
        return Ok(XfieldResult { fields: Vec::new(), xf_used_data: 0, padded_total: 0, unused_trailing_bytes: 0 });
    }
    if len < 4 {
        return Err(xfield_error(ctx, node_paddr, entry_index, " blob is shorter than the 4-byte xf_blob_t"));
    }
    let xf_num_exts = le_u16(blob, 0) as usize;
    let xf_used_data = le_u16(blob, 2) as u32;
    let metadata_end: usize = 4 + xf_num_exts * 4;
    if metadata_end > len {
        return Err(xfield_error(ctx, node_paddr, entry_index, " metadata runs past blob length"));
    }
    let ghost b = blob@;
    let mut seen_types: Vec<u8> = Vec::new();
    let mut cursor: usize = metadata_end;
    let mut fields: Vec<XfieldEntry> = Vec::new();
    let mut padded_total: u32 = 0;
    let mut index: usize = 0;
    while index < xf_num_exts
        invariant
            b == blob@,
            len == b.len(),
            b.len() >= 4,
            xf_num_exts == xf_count(b),
            xf_used_data == xf_used(b),
            metadata_end == xf_meta_end(b),
            metadata_end <= len,
            index <= xf_num_exts,
            cursor == xf_offset(b, index as int),
            padded_total == padded_sum(b, index as int),
            index < xf_num_exts ==> cursor <= len,
            seen_types@ == Seq::new(index as nat, |k: int| xf_type(b, k)),
            fields@.len() == index,
            forall|k: int| 0 <= k < index ==> #[trigger] entry_matches(fields@[k], b, k),
            forall|k: int| 0 <= k < index ==> !#[trigger] xf_field_fails(b, ctx, k),
        decreases xf_num_exts - index,
    {
        let meta_off = 4 + index * 4;
        let x_type = blob[meta_off];
        let x_flags = blob[meta_off + 1];
        let x_size = le_u16(blob, meta_off + 2);
        assert(x_type == xf_type(b, index as int));
        assert(x_size == xf_size(b, index as int));
        if contains_byte(&seen_types, x_type) {
            proof {
                let j = choose|j: int| 0 <= j < seen_types@.len() && seen_types@[j] == x_type;
                assert(xf_type(b, j) == xf_type(b, index as int));
                assert(xf_field_fails(b, ctx, index as int));
            }
            let mut rest = owned(" blob carries duplicate x_type ");
            push_hex_prefixed(&mut rest, x_type as u64);
            return Err(xfield_error(ctx, node_paddr, entry_index, rest.as_str()));
        }
        proof {
            assert forall|j: int| 0 <= j < index implies xf_type(b, j) != xf_type(b, index as int) by {
                assert(seen_types@[j] == xf_type(b, j));
            }
        }
        seen_types.push(x_type);
        if x_size as usize > len - cursor {
            assert(xf_field_fails(b, ctx, index as int));
            let mut rest = owned(" value cursor ");
            push_decimal(&mut rest, cursor as u64);
            rest.append(" size ");
            push_decimal(&mut rest, x_size as u64);
            rest.append(" exceeds blob length ");
            push_decimal(&mut rest, len as u64);
            return Err(xfield_error(ctx, node_paddr, entry_index, rest.as_str()));
        }
        let end_value = cursor + x_size as usize;
        let data = slice_range(blob, cursor, end_value);
        assert(data@ == xf_data(b, index as int));
        let padded_length = round_up_8(x_size as u32);
        proof {
            lemma_round8_bounds(x_size as int);
        }
        match check_required_size(ctx, x_type, x_size, node_paddr, entry_index) {
            Ok(_) => {},
            Err(e) => {
                assert(xf_field_fails(b, ctx, index as int));
                return Err(e);
            },
        }
        let interpreted = interpret_xfield(x_type, data);
        let entry = XfieldEntry {
            x_type,
            x_flags,
            x_size,
            padded_length,
            value_hex: to_hex(data),
            interpreted,
        };
        fields.push(entry);
        assert(padded_sum(b, index + 1) == padded_sum(b, index as int) + round8(xf_size(b, index as int)));
        if padded_length > u32::MAX - padded_total {
            assert(xf_field_fails(b, ctx, index as int));
            return Err(xfield_error(ctx, node_paddr, entry_index, " padded total overflows"));
        }
        padded_total = padded_total + padded_length;
        if padded_length as usize > usize::MAX - cursor {
            assert(xf_field_fails(b, ctx, index as int));
            return Err(xfield_error(ctx, node_paddr, entry_index, " cursor overflows"));
        }
        cursor = cursor + padded_length as usize;
        if cursor > len && index + 1 < xf_num_exts {
            assert(xf_field_fails(b, ctx, index as int));
            let mut rest = owned(" padded cursor ");
            push_decimal(&mut rest, cursor as u64);
            rest.append(" exceeds blob length ");
            push_decimal(&mut rest, len as u64);
            rest.append(" with more fields to read");
            return Err(xfield_error(ctx, node_paddr, entry_index, rest.as_str()));
        }
        assert(!xf_field_fails(b, ctx, index as int));
        proof {
            assert(entry_matches(fields@[index as int], b, index as int));
            assert(seen_types@ =~= Seq::new((index + 1) as nat, |k: int| xf_type(b, k)));
        }
        index = index + 1;
    }
    if xf_used_data != padded_total {
        let mut rest = owned(" blob has xf_used_data=");
        push_decimal(&mut rest, xf_used_data as u64);
        rest.append(" but the padded sizes sum to ");
        push_decimal(&mut rest, padded_total as u64);
        return Err(xfield_error(ctx, node_paddr, entry_index, rest.as_str()));
    }
    proof {
        assert forall|i: int| 0 <= i < xf_count(b) implies !#[trigger] xf_field_fails(b, ctx, i) by {}
    }
    let unused: i32 = if cursor <= len {
        (len - cursor) as i32
    } else {
        0i32 - ((cursor - len) as i32)
    };
    Ok(XfieldResult { fields, xf_used_data, padded_total, unused_trailing_bytes: unused })
}

// ---- values -------------------------------------------------------------- //

/// The Dstream interpretation of the last `INO_EXT_TYPE_DSTREAM` field.
pub open spec fn picked_dstream(fields: Seq<XfieldEntry>) -> Option<DstreamFields>
    decreases fields.len(),
{
    if fields.len() == 0 {
        None
    } else {
        let e = fields.last();
        match e.interpreted {
            Some(XfieldInterpreted::Dstream { value }) => if e.x_type == INO_EXT_TYPE_DSTREAM {
                Some(value)
            } else {
                picked_dstream(fields.drop_last())
            },
            _ => picked_dstream(fields.drop_last()),
        }
    }
}

/// The integer interpretation of the last field of type `t`.
pub open spec fn picked_u64(fields: Seq<XfieldEntry>, t: u8) -> Option<u64>
    decreases fields.len(),
{
    if fields.len() == 0 {
        None
    } else {
        let e = fields.last();
        match e.interpreted {
            Some(XfieldInterpreted::U64 { value }) => if e.x_type == t {
                Some(value)
            } else {
                picked_u64(fields.drop_last(), t)
            },
            _ => picked_u64(fields.drop_last(), t),
        }
    }
}

/// The text interpretation of the last `INO_EXT_TYPE_NAME` field.
pub open spec fn picked_name(fields: Seq<XfieldEntry>) -> Option<Seq<char>>
    decreases fields.len(),
{
    if fields.len() == 0 {
        None
    } else {
        let e = fields.last();
        match e.interpreted {
            Some(XfieldInterpreted::Utf8 { value }) => if e.x_type == INO_EXT_TYPE_NAME {
                Some(value@)
            } else {
                picked_name(fields.drop_last())
            },
            _ => picked_name(fields.drop_last()),
        }
    }
}

/// `o` holds exactly the text `t`.
pub open spec fn text_opt(o: Option<String>, t: Option<Seq<char>>) -> bool {
    match (o, t) {
        (Some(s), Some(u)) => s@ == u,
        (None, None) => true,
        _ => false,
    }
}

/// The xfield blob of a value whose fixed part is `fixed` bytes long.
pub open spec fn tail(value: Seq<u8>, fixed: int) -> Seq<u8> {
    value.subrange(fixed, value.len() as int)
}

/// Fields, totals and trailing bytes of an accepted blob as a body holds them.
pub open spec fn body_fields_match(
    fields: Seq<XfieldEntry>,
    used: u32,
    padded: u32,
    unused: i32,
    blob: Seq<u8>,
) -> bool {
    &&& fields.len() == xf_count(blob)
    &&& forall|i: int| 0 <= i < xf_count(blob) ==> #[trigger] entry_matches(fields[i], blob, i)
    &&& used == xf_used(blob)
    &&& padded == padded_sum(blob, xf_count(blob))
    &&& unused == (blob.len() - xf_meta_end(blob) - padded_sum(blob, xf_count(blob))) as i32
}

pub open spec fn inode_refused(value: Seq<u8>) -> bool {
    value.len() < INODE_FIXED_SIZE || xfields_refused(tail(value, INODE_FIXED_SIZE as int), XfieldContext::Inode)
}

/// `b` is the inode stored in `value` (`j_inode_val_t` and its xfields).
pub open spec fn inode_matches(b: InodeBody, value: Seq<u8>) -> bool {
    let flags = le64(value, 0x30) as u64;
    &&& b.parent_id == le64(value, 0x00) as u64
    &&& b.private_id == le64(value, 0x08) as u64
    &&& b.internal_flags == flags
    &&& b.nchildren_or_nlink == le32(value, 0x38) as i32
    &&& b.bsd_flags == le32(value, 0x44) as u32
    &&& b.owner == le32(value, 0x48) as u32
    &&& b.group == le32(value, 0x4c) as u32
    &&& b.mode == le16(value, 0x50) as u16
    &&& b.uncompressed_size == le64(value, 0x54) as u64
    &&& b.has_uncompressed_size == (flags & INODE_HAS_UNCOMPRESSED_SIZE != 0)
    &&& body_fields_match(
        b.xfields@,
        b.xfield_used_data,
        b.xfield_padded_total,
        b.xfield_unused_trailing_bytes,
        tail(value, INODE_FIXED_SIZE as int),
    )
    &&& b.dstream == picked_dstream(b.xfields@)
    &&& b.sparse_bytes == picked_u64(b.xfields@, INO_EXT_TYPE_SPARSE_BYTES)
    &&& text_opt(b.inode_name, picked_name(b.xfields@))
}

/// The directory-entry type stored in `j_drec_val_t.flags`.
pub open spec fn drec_entry_type(value: Seq<u8>) -> u8 {
    ((le16(value, 0x10) as u16) & DREC_TYPE_MASK) as u8
}

pub open spec fn drec_refused(value: Seq<u8>) -> bool {
    ||| value.len() < DREC_PREFIX_SIZE
    ||| !known_drec_entry_type(drec_entry_type(value))
    ||| xfields_refused(tail(value, DREC_PREFIX_SIZE as int), XfieldContext::DirRec)
}

/// `b` is the directory entry stored in `value`.
pub open spec fn drec_matches(b: DirRecBody, value: Seq<u8>) -> bool {
    &&& b.file_id == le64(value, 0) as u64
    &&& b.date_added == le64(value, 8) as u64
    &&& b.flags == le16(value, 0x10) as u16
    &&& b.entry_type == drec_entry_type(value)
    &&& b.sibling_id == picked_u64(b.xfields@, DREC_EXT_TYPE_SIBLING_ID)
    &&& body_fields_match(
        b.xfields@,
        b.xfield_used_data,
        b.xfield_padded_total,
        b.xfield_unused_trailing_bytes,
        tail(value, DREC_PREFIX_SIZE as int),
    )
}

pub open spec fn xattr_flags(value: Seq<u8>) -> u16 {
    le16(value, 0) as u16
}

pub open spec fn xattr_refused(value: Seq<u8>) -> bool {
    let flags = xattr_flags(value);
    let payload = tail(value, XATTR_VALUE_HEADER_SIZE as int);
    ||| value.len() < XATTR_VALUE_HEADER_SIZE
    ||| flags & !XATTR_KNOWN_FLAG_BITS != 0
    ||| (flags & XATTR_DATA_EMBEDDED != 0) == (flags & XATTR_DATA_STREAM != 0)
    ||| payload.len() != le16(value, 2)
    ||| (flags & XATTR_DATA_STREAM != 0 && payload.len() < J_XATTR_DSTREAM_SIZE)
}

/// `b` is the extended attribute stored in `value`: embedded data keeps
/// its UTF-8 text when it has one; stream data names its object and
/// `j_dstream_t`.
pub open spec fn xattr_matches(b: XattrBody, value: Seq<u8>) -> bool {
    let flags = xattr_flags(value);
    let payload = tail(value, XATTR_VALUE_HEADER_SIZE as int);
    let embedded = flags & XATTR_DATA_EMBEDDED != 0;
    let stream = flags & XATTR_DATA_STREAM != 0;
    &&& b.flags == flags
    &&& b.xdata_len == le16(value, 2) as u16
    &&& b.embedded == embedded
    &&& b.stream == stream
    &&& b.payload_hex@ == hex_dump(payload)
    &&& text_opt(
        b.payload_utf8,
        if embedded && valid_utf8(strip_nul(payload)) {
            Some(decode_utf8(strip_nul(payload)))
        } else {
            None
        },
    )
    &&& b.stream_xattr_obj_id == if stream {
        Some(le64(payload, 0) as u64)
    } else {
        None
    }
    &&& b.stream_dstream == if stream {
        Some(dstream_of(payload.subrange(8, 48)))
    } else {
        None
    }
}

pub open spec fn sibling_name_len(value: Seq<u8>) -> int {
    le16(value, 8)
}

pub open spec fn sibling_link_refused(value: Seq<u8>) -> bool {
    ||| value.len() < SIBLING_LINK_FIXED_PREFIX
    ||| sibling_name_len(value) == 0
    ||| 10 + sibling_name_len(value) > value.len()
    ||| !name_ok(value.subrange(10, 10 + sibling_name_len(value)))
}

pub open spec fn sibling_link_matches(b: SiblingLinkBody, value: Seq<u8>) -> bool {
    let name_bytes = value.subrange(10, 10 + sibling_name_len(value));
    &&& b.parent_id == le64(value, 0) as u64
    &&& b.name_len == sibling_name_len(value) as u16
    &&& b.name@ == name_text(name_bytes)
    &&& b.name_bytes_hex@ == hex_dump(name_bytes)
}

/// The value of a record of type `raw_type` is refused.
pub open spec fn value_refused(raw_type: u8, value: Seq<u8>) -> bool {
    if raw_type == RAW_TYPE_INODE {
        inode_refused(value)
    } else if raw_type == RAW_TYPE_XATTR {
        xattr_refused(value)
    } else if raw_type == RAW_TYPE_SIBLING_LINK {
        sibling_link_refused(value)
    } else if raw_type == RAW_TYPE_DIR_REC {
        drec_refused(value)
    } else if raw_type == RAW_TYPE_SIBLING_MAP {
        value.len() < SIBLING_MAP_VALUE_SIZE
    } else if raw_type == RAW_TYPE_FILE_EXTENT {
        value.len() < FILE_EXTENT_VALUE_MIN
    } else {
        false
    }
}

/// `v` is the decoded value of an accepted record of type `raw_type`.
pub open spec fn value_matches(raw_type: u8, value: Seq<u8>, v: FsRecordValue) -> bool {
    if raw_type == RAW_TYPE_INODE {
        v matches FsRecordValue::Inode(b) && inode_matches(b, value)
    } else if raw_type == RAW_TYPE_XATTR {
        v matches FsRecordValue::Xattr(b) && xattr_matches(b, value)
    } else if raw_type == RAW_TYPE_SIBLING_LINK {
        v matches FsRecordValue::SiblingLink(b) && sibling_link_matches(b, value)
    } else if raw_type == RAW_TYPE_DSTREAM_ID {
        v == FsRecordValue::DstreamId {
            refcnt: if value.len() >= 4 {
                Some(le32(value, 0) as u32)
            } else {
                None
            },
        }
    } else if raw_type == RAW_TYPE_DIR_REC {
        v matches FsRecordValue::DirRec(b) && drec_matches(b, value)
    } else if raw_type == RAW_TYPE_SIBLING_MAP {
        v == FsRecordValue::SiblingMap { file_id: Some(le64(value, 0) as u64) }
    } else if raw_type == RAW_TYPE_FILE_EXTENT {
        v == FsRecordValue::FileExtent(file_extent_of(value))
    } else {
        v matches FsRecordValue::Unsupported { reason } && reason@ == unsupported_reason()
    }
}

pub open spec fn unsupported_reason() -> Seq<char> {
    "record family is outside the v1 body decoder allowlist"@
}

/// The note recorded when the padded xfield values run past the blob.
pub open spec fn padding_note(kind: Seq<char>, blob_len: int) -> Seq<char> {
    "xfield padded total exceeds "@ + kind + " blob length ("@ + decimal(blob_len as nat) + " bytes)"@
}

/// The validation notes an accepted record of type `raw_type` carries.
pub open spec fn value_notes(raw_type: u8, value: Seq<u8>) -> Seq<Seq<char>> {
    if raw_type == RAW_TYPE_INODE || raw_type == RAW_TYPE_DIR_REC {
        let fixed = if raw_type == RAW_TYPE_INODE {
            INODE_FIXED_SIZE as int
        } else {
            DREC_PREFIX_SIZE as int
        };
        let blob = tail(value, fixed);
        if ((blob.len() - xf_meta_end(blob) - padded_sum(blob, xf_count(blob))) as i32) < 0 {
            seq![
                padding_note(
                    if raw_type == RAW_TYPE_INODE {
                        "inode"@
                    } else {
                        "drec"@
                    },
                    blob.len() as int,
                ),
            ]
        } else {
            Seq::empty()
        }
    } else {
        Seq::empty()
    }
}

/// The views of a list of strings.
pub open spec fn texts(v: Seq<String>) -> Seq<Seq<char>> {
    v.map_values(|s: String| s@)
}

fn push_padding_note(notes: &mut Vec<String>, kind: &str, blob_len: usize)
    ensures
        texts(final(notes)@) == texts(old(notes)@).push(padding_note(kind@, blob_len as int)),
{
    let mut note = owned("xfield padded total exceeds ");
    note.append(kind);
    note.append(" blob length (");
    push_decimal(&mut note, blob_len as u64);
    note.append(" bytes)");
    notes.push(note);
    assert(texts(notes@) =~= texts(old(notes)@).push(padding_note(kind@, blob_len as int)));
}

fn pick_fields(fields: &Vec<XfieldEntry>) -> (r: (Option<DstreamFields>, Option<u64>, Option<String>, Option<u64>))
    ensures
        r.0 == picked_dstream(fields@),
        r.1 == picked_u64(fields@, INO_EXT_TYPE_SPARSE_BYTES),
        text_opt(r.2, picked_name(fields@)),
        r.3 == picked_u64(fields@, DREC_EXT_TYPE_SIBLING_ID),
{
    let mut dstream: Option<DstreamFields> = None;
    let mut sparse_bytes: Option<u64> = None;
    let mut name: Option<String> = None;
    let mut sibling_id: Option<u64> = None;
    let mut i: usize = 0;
    while i < fields.len()
        invariant
            i <= fields@.len(),
            dstream == picked_dstream(fields@.subrange(0, i as int)),
            sparse_bytes == picked_u64(fields@.subrange(0, i as int), INO_EXT_TYPE_SPARSE_BYTES),
            text_opt(name, picked_name(fields@.subrange(0, i as int))),
            sibling_id == picked_u64(fields@.subrange(0, i as int), DREC_EXT_TYPE_SIBLING_ID),
        decreases fields@.len() - i,
    {
        let field = &fields[i];
        proof {
            let next = fields@.subrange(0, i + 1);
            assert(next.drop_last() =~= fields@.subrange(0, i as int));
            assert(next.last() == fields@[i as int]);
        }
        match &field.interpreted {
            Some(XfieldInterpreted::Dstream { value }) => {
                if field.x_type == INO_EXT_TYPE_DSTREAM {
                    dstream = Some(*value);
                }
            },
            Some(XfieldInterpreted::U64 { value }) => {
                if field.x_type == INO_EXT_TYPE_SPARSE_BYTES {
                    sparse_bytes = Some(*value);
                }
                if field.x_type == DREC_EXT_TYPE_SIBLING_ID {
                    sibling_id = Some(*value);
                }
            },
            Some(XfieldInterpreted::Utf8 { value }) => {
                if field.x_type == INO_EXT_TYPE_NAME {
                    name = Some(value.clone());
                }
            },
            None => {},
        }
        i = i + 1;
    }
    assert(fields@.subrange(0, fields@.len() as int) =~= fields@);
    (dstream, sparse_bytes, name, sibling_id)
}

fn decode_inode(value: &[u8], node_paddr: u64, entry_index: u32, notes: &mut Vec<String>) -> (r: Result<
    InodeBody,
    ScanError,
>)
    ensures
        match r {
            Ok(b) => !inode_refused(value@) && inode_matches(b, value@) && texts(final(notes)@) == texts(
                old(notes)@,
            ) + value_notes(RAW_TYPE_INODE, value@),
            Err(e) => inode_refused(value@) && e is InvalidObject,
        },
{
    if value.len() < INODE_FIXED_SIZE {
        return Err(ScanError::InvalidObject(at_node(
            "inode value",
            node_paddr,
            entry_index,
            " shorter than j_inode_val_t (92 bytes)",
        )));
    }
    let internal_flags = le_u64(value, 0x30);
    let xfield_blob = slice_range(value, INODE_FIXED_SIZE, value.len());
    let x = decode_xfields(xfield_blob, XfieldContext::Inode, node_paddr, entry_index)?;
    let (dstream, sparse_bytes, inode_name, _) = pick_fields(&x.fields);
    if x.unused_trailing_bytes < 0 {
        push_padding_note(notes, "inode", xfield_blob.len());
    }
    proof {
        reveal_strlit("inode");
        assert(texts(notes@) =~= texts(old(notes)@) + value_notes(RAW_TYPE_INODE, value@));
    }
    Ok(InodeBody {
        parent_id: le_u64(value, 0x00),
        private_id: le_u64(value, 0x08),
        internal_flags,
        nchildren_or_nlink: le_u32(value, 0x38) as i32,
        bsd_flags: le_u32(value, 0x44),
        owner: le_u32(value, 0x48),
        group: le_u32(value, 0x4c),
        mode: le_u16(value, 0x50),
        uncompressed_size: le_u64(value, 0x54),
        has_uncompressed_size: (internal_flags & INODE_HAS_UNCOMPRESSED_SIZE) != 0,
        xfields: x.fields,
        xfield_used_data: x.xf_used_data,
        xfield_padded_total: x.padded_total,
        xfield_unused_trailing_bytes: x.unused_trailing_bytes,
        dstream,
        sparse_bytes,
        inode_name,
    })
}

/// The refusal of a directory entry whose POSIX entry type is unknown.
pub open spec fn unknown_entry_type_text(node_paddr: u64, entry_index: u32, entry_type: u8) -> Seq<char> {
    at_node_text("drec value"@, node_paddr, entry_index, " has unknown POSIX entry type "@ + hex_prefixed(entry_type as nat))
}

fn decode_drec(value: &[u8], node_paddr: u64, entry_index: u32, notes: &mut Vec<String>) -> (r: Result<
    DirRecBody,
    ScanError,
>)
    ensures
        match r {
            Ok(b) => !drec_refused(value@) && drec_matches(b, value@) && texts(final(notes)@) == texts(
                old(notes)@,
            ) + value_notes(RAW_TYPE_DIR_REC, value@),
            Err(e) => drec_refused(value@) && e is InvalidObject,
        },
        value@.len() >= DREC_PREFIX_SIZE && !known_drec_entry_type(drec_entry_type(value@)) ==> (r matches Err(
            ScanError::InvalidObject(m),
        ) && m@ == unknown_entry_type_text(node_paddr, entry_index, drec_entry_type(value@))),
{
    if value.len() < DREC_PREFIX_SIZE {
        return Err(ScanError::InvalidObject(at_node(
            "drec value",
            node_paddr,
            entry_index,
            " shorter than j_drec_val_t (18 bytes)",
        )));
    }
    let flags = le_u16(value, 0x10);
    let entry_type = (flags & DREC_TYPE_MASK) as u8;
    if !is_known_drec_entry_type(entry_type) {
        let mut rest = owned(" has unknown POSIX entry type ");
        push_hex_prefixed(&mut rest, entry_type as u64);
        return Err(ScanError::InvalidObject(at_node("drec value", node_paddr, entry_index, rest.as_str())));
    }
    let xfield_blob = slice_range(value, DREC_PREFIX_SIZE, value.len());
    let x = decode_xfields(xfield_blob, XfieldContext::DirRec, node_paddr, entry_index)?;
    let (_, _, _, sibling_id) = pick_fields(&x.fields);
    if x.unused_trailing_bytes < 0 {
        push_padding_note(notes, "drec", xfield_blob.len());
    }
    proof {
        reveal_strlit("drec");
        assert(texts(notes@) =~= texts(old(notes)@) + value_notes(RAW_TYPE_DIR_REC, value@));
    }
    Ok(DirRecBody {
        file_id: le_u64(value, 0),
        date_added: le_u64(value, 8),
        flags,
        entry_type,
        sibling_id,
        xfields: x.fields,
        xfield_used_data: x.xf_used_data,
        xfield_padded_total: x.padded_total,
        xfield_unused_trailing_bytes: x.unused_trailing_bytes,
    })
}

fn decode_xattr(value: &[u8], node_paddr: u64, entry_index: u32) -> (r: Result<XattrBody, ScanError>)
    ensures
        match r {
            Ok(b) => !xattr_refused(value@) && xattr_matches(b, value@),
            Err(e) => xattr_refused(value@) && e is InvalidObject,
        },
{
    if value.len() < XATTR_VALUE_HEADER_SIZE {
        return Err(ScanError::InvalidObject(at_node(
            "xattr value",
            node_paddr,
            entry_index,
            " shorter than j_xattr_val_t (4 bytes)",
        )));
    }
    let flags = le_u16(value, 0);
    let xdata_len = le_u16(value, 2);
    let unknown_bits = flags & !XATTR_KNOWN_FLAG_BITS;
    if unknown_bits != 0 {
        let mut rest = owned(" has unknown flag bits ");
        push_hex_prefixed(&mut rest, unknown_bits as u64);
        return Err(ScanError::InvalidObject(at_node("xattr value", node_paddr, entry_index, rest.as_str())));
    }
    let embedded = flags & XATTR_DATA_EMBEDDED != 0;
    let stream = flags & XATTR_DATA_STREAM != 0;
    if embedded == stream {
        let mut rest = owned(" sets both or neither of XATTR_DATA_EMBEDDED/XATTR_DATA_STREAM (flags=");
        push_hex_prefixed(&mut rest, flags as u64);
        rest.append(")");
        return Err(ScanError::InvalidObject(at_node("xattr value", node_paddr, entry_index, rest.as_str())));
    }
    let payload = slice_range(value, XATTR_VALUE_HEADER_SIZE, value.len());
    if payload.len() != xdata_len as usize {
        let mut rest = owned(" body length ");
        push_decimal(&mut rest, payload.len() as u64);
        rest.append(" disagrees with xdata_len ");
        push_decimal(&mut rest, xdata_len as u64);
        return Err(ScanError::InvalidObject(at_node("xattr value", node_paddr, entry_index, rest.as_str())));
    }
    let mut body = XattrBody {
        flags,
        xdata_len,
        embedded,
        stream,
        payload_hex: to_hex(payload),
        payload_utf8: None,
        stream_xattr_obj_id: None,
        stream_dstream: None,
    };
    if embedded {
        body.payload_utf8 = utf8_to_string(strip_trailing_nul(payload));
    } else {
        if payload.len() < J_XATTR_DSTREAM_SIZE {
            let mut rest = owned(" is stream-backed but body length ");
            push_decimal(&mut rest, payload.len() as u64);
            rest.append(" is shorter than j_xattr_dstream_t (48)");
            return Err(ScanError::InvalidObject(at_node("xattr value", node_paddr, entry_index, rest.as_str())));
        }
        body.stream_xattr_obj_id = Some(le_u64(payload, 0));
        let d = parse_dstream(slice_range(payload, 8, 48));
        match d {
            Ok(d) => {
                body.stream_dstream = Some(d);
            },
            Err(e) => {
                return Err(e);
            },
        }
    }
    Ok(body)
}

fn decode_sibling_link(value: &[u8], node_paddr: u64, entry_index: u32) -> (r: Result<
    SiblingLinkBody,
    ScanError,
>)
    ensures
        match r {
            Ok(b) => !sibling_link_refused(value@) && sibling_link_matches(b, value@),
            Err(e) => sibling_link_refused(value@) && e is InvalidObject,
        },
{
    if value.len() < SIBLING_LINK_FIXED_PREFIX {
        return Err(ScanError::InvalidObject(at_node(
            "sibling_link value",
            node_paddr,
            entry_index,
            " shorter than 10 bytes",
        )));
    }
    let parent_id = le_u64(value, 0);
    let name_len = le_u16(value, 8);
    if name_len == 0 || name_len as usize > value.len() - SIBLING_LINK_FIXED_PREFIX {
        return Err(name_len_error("sibling_link value", node_paddr, entry_index, name_len as u32, value.len()));
    }
    let name_bytes = slice_range(value, SIBLING_LINK_FIXED_PREFIX, SIBLING_LINK_FIXED_PREFIX + name_len as usize);
    let name = decode_name(name_bytes, "sibling_link_value", node_paddr, entry_index)?;
    Ok(SiblingLinkBody { parent_id, name_len, name, name_bytes_hex: to_hex(name_bytes) })
}

fn decode_value(raw_type: u8, value: &[u8], node_paddr: u64, entry_index: u32, notes: &mut Vec<String>) -> (r:
    Result<FsRecordValue, ScanError>)
    ensures
        match r {
            Ok(v) => !value_refused(raw_type, value@) && value_matches(raw_type, value@, v) && texts(
                final(notes)@,
            ) == texts(old(notes)@) + value_notes(raw_type, value@),
            Err(e) => value_refused(raw_type, value@) && e is InvalidObject,
        },
        raw_type == RAW_TYPE_DIR_REC && value@.len() >= DREC_PREFIX_SIZE && !known_drec_entry_type(
            drec_entry_type(value@),
        ) ==> (r matches Err(ScanError::InvalidObject(m)) && m@ == unknown_entry_type_text(
            node_paddr,
            entry_index,
            drec_entry_type(value@),
        )),
{
    if raw_type == RAW_TYPE_INODE {
        Ok(FsRecordValue::Inode(decode_inode(value, node_paddr, entry_index, notes)?))
    } else if raw_type == RAW_TYPE_DIR_REC {
        Ok(FsRecordValue::DirRec(decode_drec(value, node_paddr, entry_index, notes)?))
    } else {
        assert(texts(notes@) =~= texts(old(notes)@) + value_notes(raw_type, value@));
        if raw_type == RAW_TYPE_XATTR {
            Ok(FsRecordValue::Xattr(decode_xattr(value, node_paddr, entry_index)?))
        } else if raw_type == RAW_TYPE_SIBLING_LINK {
            Ok(FsRecordValue::SiblingLink(decode_sibling_link(value, node_paddr, entry_index)?))
        } else if raw_type == RAW_TYPE_DSTREAM_ID {
            let refcnt = if value.len() >= 4 {
                Some(le_u32(value, 0))
            } else {
                None
            };
            Ok(FsRecordValue::DstreamId { refcnt })
        } else if raw_type == RAW_TYPE_SIBLING_MAP {
            if value.len() < SIBLING_MAP_VALUE_SIZE {
                return Err(ScanError::InvalidObject(at_node(
                    "sibling_map value",
                    node_paddr,
                    entry_index,
                    " shorter than 8 bytes",
                )));
            }
            Ok(FsRecordValue::SiblingMap { file_id: Some(le_u64(value, 0)) })
        } else if raw_type == RAW_TYPE_FILE_EXTENT {
            Ok(FsRecordValue::FileExtent(decode_file_extent(value, node_paddr, entry_index)?))
        } else {
            Ok(FsRecordValue::Unsupported { reason: "record family is outside the v1 body decoder allowlist" })
        }
    }
}

// ---- records ------------------------------------------------------------- //

/// The record type nibble of a key.
pub open spec fn key_raw_type(key: Seq<u8>) -> u8 {
    ((le64(key, 0) as u64) >> FS_RECORD_TYPE_SHIFT) as u8
}

/// The object id of a key.
pub open spec fn key_object_id(key: Seq<u8>) -> u64 {
    (le64(key, 0) as u64) & FS_OBJECT_ID_MASK
}

/// A record is refused when its key is shorter than `j_key_t`, or its key
/// or its value does not decode.
pub open spec fn record_refused(key: Seq<u8>, value: Seq<u8>) -> bool {
    ||| key.len() < 8
    ||| key_spec(key_raw_type(key), key) is Refused
    ||| value_refused(key_raw_type(key), value)
}

/// `row` is the decoding of the accepted record (`key`, `value`) found at
/// `entry_index` of the node at `node_paddr`.
pub open spec fn row_matches(row: FsRecordRow, node_paddr: u64, entry_index: u32, key: Seq<u8>, value: Seq<u8>) -> bool {
    let raw = key_raw_type(key);
    &&& row.node_paddr == node_paddr
    &&& row.entry_index == entry_index
    &&& row.object_id == key_object_id(key)
    &&& row.raw_type == raw
    &&& row.family@ == family_name(raw)
    &&& row.key_len == key.len() as u32
    &&& row.value_len == value.len() as u32
    &&& key_matches(row.key, key_spec(raw, key))
    &&& value_matches(raw, value, row.value)
    &&& texts(row.validation_notes@) == value_notes(raw, value)
}

/// Decodes one FS-tree leaf entry. Every malformed key or value is
/// refused with `InvalidObject`; the caller stops the whole walk on it.
pub fn decode_fs_record(node_paddr: u64, entry_index: u32, key: &[u8], value: &[u8]) -> (r: Result<
    FsRecordRow,
    ScanError,
>)
    ensures
        match r {
            Ok(row) => !record_refused(key@, value@) && row_matches(row, node_paddr, entry_index, key@, value@),
            Err(e) => record_refused(key@, value@) && e is InvalidObject,
        },
        key@.len() >= 8 && !(key_spec(key_raw_type(key@), key@) is Refused) && key_raw_type(key@) == RAW_TYPE_DIR_REC
            && value@.len() >= DREC_PREFIX_SIZE && !known_drec_entry_type(drec_entry_type(value@)) ==> (r matches Err(
            ScanError::InvalidObject(m),
        ) && m@ == unknown_entry_type_text(node_paddr, entry_index, drec_entry_type(value@))),
{
    if key.len() < 8 {
        return Err(ScanError::InvalidObject(at_node(
            "FS-tree leaf key",
            node_paddr,
            entry_index,
            " shorter than j_key_t",
        )));
    }
    let key_word = le_u64(key, 0);
    let object_id = key_word & FS_OBJECT_ID_MASK;
    let raw_type = (key_word >> FS_RECORD_TYPE_SHIFT) as u8;
    let family = record_family_name(raw_type);
    let key_decoded = decode_key(raw_type, key, node_paddr, entry_index)?;
    let mut validation_notes: Vec<String> = Vec::new();
    let value_decoded = decode_value(raw_type, value, node_paddr, entry_index, &mut validation_notes)?;
    assert(texts(validation_notes@) =~= value_notes(raw_type, value@));
    Ok(FsRecordRow {
        node_paddr,
        entry_index,
        object_id,
        raw_type,
        family,
        key_len: key.len() as u32,
        value_len: value.len() as u32,
        key: key_decoded,
        value: value_decoded,
        validation_notes,
    })
}

} // verus!
