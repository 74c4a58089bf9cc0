//! Volume superblock (`apfs_superblock_t`) decoding.
//!
//! Decodes one volume superblock that the container object map resolved,
//! reports the fields the FS-tree dump needs (the volume object map and the
//! root tree id) and decides whether the volume may be walked at all.

use vstd::prelude::*;
use vstd::utf8::{decode_utf8, valid_utf8};

use crate::block_io::{le16, le32, le64, le_u16, le_u32, le_u64};
use crate::container::{format_uuid, uuid_text};
use crate::object::{
    flags_summary, flags_summary_of, name_views, object_rejection, spec_header, validate_object_block,
    ExpectedStorage, ObjectExpectation, ObjectHeader, APFS_MAGIC, OBJECT_TYPE_FS,
};
use crate::text::{hex_prefixed, msg_num, msg_num2, owned, push_decimal, push_hex_prefixed};
use crate::ScanError;

verus! {

pub const APFS_FS_UNENCRYPTED: u64 = 0x1;
pub const APFS_FS_ONEKEY: u64 = 0x8;
pub const APFS_FS_SPILLEDOVER: u64 = 0x10;
pub const APFS_FS_RUN_SPILLOVER_CLEANER: u64 = 0x20;
pub const APFS_FS_ALWAYS_CHECK_EXTENTREF: u64 = 0x40;

pub const APFS_INCOMPAT_CASE_INSENSITIVE: u64 = 0x1;
pub const APFS_INCOMPAT_DATALESS_SNAPS: u64 = 0x2;
pub const APFS_INCOMPAT_ENC_ROLLED: u64 = 0x4;
pub const APFS_INCOMPAT_NORMALIZATION_INSENSITIVE: u64 = 0x8;
pub const APFS_INCOMPAT_INCOMPLETE_RESTORE: u64 = 0x10;
pub const APFS_INCOMPAT_SEALED_VOLUME: u64 = 0x20;
pub const APFS_INCOMPAT_KNOWN: u64 = 0x3f;

pub const APFS_VOL_ROLE_NONE: u16 = 0x0000;
pub const APFS_VOL_ROLE_SYSTEM: u16 = 0x0001;
pub const APFS_VOL_ROLE_USER: u16 = 0x0002;
pub const APFS_VOL_ROLE_RECOVERY: u16 = 0x0004;
pub const APFS_VOL_ROLE_VM: u16 = 0x0008;
pub const APFS_VOL_ROLE_PREBOOT: u16 = 0x0010;
pub const APFS_VOL_ROLE_INSTALLER: u16 = 0x0020;
pub const APFS_VOL_ROLE_DATA: u16 = 0x0040;
pub const APFS_VOL_ROLE_BASEBAND: u16 = 0x0080;

pub const APFS_VOLNAME_OFFSET: usize = 0x2c0;
pub const APFS_VOLNAME_LEN: usize = 256;
pub const APFS_ROLE_OFFSET: usize = 0x3c4;

/// Bytes of a volume superblock the decoder reads unconditionally.
pub const APFS_SUPERBLOCK_FIXED: usize = 0x110;

/// The decoded fields of a volume superblock.
#[derive(Debug, Clone)]
pub struct VolumeSummary {
    pub block_address: u64,
    pub virtual_oid: u64,
    pub xid: u64,
    pub fs_index: u32,
    pub features_raw: u64,
    pub readonly_compatible_features_raw: u64,
    pub incompatible_features_raw: u64,
    pub fs_flags_raw: u64,
    pub incompatible_features: Vec<&'static str>,
    pub fs_flags: Vec<&'static str>,
    pub unsupported_incompatible_features: u64,
    pub volume_name: String,
    pub volume_uuid_hex: String,
    pub role_raw: u16,
    pub role_names: Vec<&'static str>,
    pub root_tree_type_raw: u32,
    pub extentref_tree_type_raw: u32,
    pub snap_meta_tree_type_raw: u32,
    pub omap_oid: u64,
    pub root_tree_virtual_oid: u64,
    pub extentref_tree_oid: u64,
    pub snap_meta_tree_oid: u64,
    pub num_files: u64,
    pub num_directories: u64,
    pub num_symlinks: u64,
    pub num_other_fsobjects: u64,
    pub num_snapshots: u64,
    pub object_header: ObjectHeader,
    pub object_storage_summary: Vec<&'static str>,
    pub case_insensitive: bool,
    pub normalization_insensitive: bool,
    pub encrypted_runtime: bool,
    pub support_status: VolumeSupportStatus,
}

/// Whether the volume may be walked.
#[derive(Debug, Clone)]
pub enum VolumeSupportStatus {
    /// The object map and FS-tree may be walked.
    Supported,
    /// The volume is decoded but must not be walked, for the given reason.
    Unsupported(String),
}

// ---- names ------------------------------------------------------------------- //

/// The text `String::from_utf8_lossy` makes of `bytes`: invalid sequences
/// become U+FFFD.
pub uninterp spec fn lossy_utf8(bytes: Seq<u8>) -> Seq<char>;

/// `String::from_utf8_lossy(bytes).into_owned()`. The standard library
/// documents that valid UTF-8 is decoded unchanged and that each invalid
/// sequence is replaced by U+FFFD; only the first is stated here, the
/// replacement text is left to the name.
#[verifier::external_body]
fn utf8_lossy_string(bytes: &[u8]) -> (r: String)
    ensures
        r@ == lossy_utf8(bytes@),
        valid_utf8(bytes@) ==> r@ == decode_utf8(bytes@),
{
    String::from_utf8_lossy(bytes).into_owned()
}

/// The bytes before the first NUL (all of them when there is none).
pub open spec fn up_to_nul(bytes: Seq<u8>) -> Seq<u8>
    decreases bytes.len(),
{
    if bytes.len() == 0 {
        bytes
    } else if bytes[0] == 0 {
        Seq::empty()
    } else {
        seq![bytes[0]] + up_to_nul(bytes.drop_first())
    }
}

/// The volume name stored in `bytes`: its text up to the first NUL.
pub fn decode_volname(bytes: &[u8]) -> (r: String)
    ensures
        r@ == lossy_utf8(up_to_nul(bytes@)),
{
    let mut end: usize = 0;
    proof {
        assert(bytes@.subrange(0, 0) =~= Seq::<u8>::empty());
        assert(bytes@.subrange(0, bytes@.len() as int) =~= bytes@);
    }
    while end < bytes.len() && bytes[end] != 0
        invariant
            end <= bytes@.len(),
            forall|k: int| 0 <= k < end ==> bytes@[k] != 0,
            up_to_nul(bytes@) == bytes@.subrange(0, end as int) + up_to_nul(bytes@.subrange(end as int, bytes@.len() as int)),
        decreases bytes@.len() - end,
    {
        proof {
            let rest = bytes@.subrange(end as int, bytes@.len() as int);
            assert(rest.drop_first() =~= bytes@.subrange(end + 1, bytes@.len() as int));
            assert(bytes@.subrange(0, end + 1) =~= bytes@.subrange(0, end as int) + seq![rest[0]]);
        }
        end = end + 1;
    }
    proof {
        let rest = bytes@.subrange(end as int, bytes@.len() as int);
        if end < bytes@.len() {
            assert(rest[0] == 0);
        } else {
            assert(rest.len() == 0);
        }
        assert(up_to_nul(bytes@) =~= bytes@.subrange(0, end as int));
    }
    utf8_lossy_string(crate::fs_record_body::slice_range(bytes, 0, end))
}

/// The role names of `apfs_role`: `none` for zero, else the names of the
/// known bits set, or `unknown` when none is.
pub open spec fn role_names_of(role: u16) -> Seq<Seq<char>> {
    if role == APFS_VOL_ROLE_NONE {
        seq!["none"@]
    } else {
        let named = role_bit(role, APFS_VOL_ROLE_SYSTEM, "system"@) + role_bit(role, APFS_VOL_ROLE_USER, "user"@)
            + role_bit(role, APFS_VOL_ROLE_RECOVERY, "recovery"@) + role_bit(role, APFS_VOL_ROLE_VM, "vm"@)
            + role_bit(role, APFS_VOL_ROLE_PREBOOT, "preboot"@) + role_bit(role, APFS_VOL_ROLE_INSTALLER, "installer"@)
            + role_bit(role, APFS_VOL_ROLE_DATA, "data"@) + role_bit(role, APFS_VOL_ROLE_BASEBAND, "baseband"@);
        if named.len() == 0 {
            seq!["unknown"@]
        } else {
            named
        }
    }
}

pub open spec fn role_bit(role: u16, bit: u16, name: Seq<char>) -> Seq<Seq<char>> {
    if role & bit != 0 {
        seq![name]
    } else {
        Seq::empty()
    }
}

fn push_if(out: &mut Vec<&'static str>, set: bool, name: &'static str)
    ensures
        name_views(final(out)@) == name_views(old(out)@) + if set {
            seq![name@]
        } else {
            Seq::empty()
        },
{
    if set {
        out.push(name);
    }
    assert(name_views(out@) =~= name_views(old(out)@) + if set {
        seq![name@]
    } else {
        Seq::<Seq<char>>::empty()
    });
}

pub fn decode_role(role: u16) -> (r: Vec<&'static str>)
    ensures
        name_views(r@) == role_names_of(role),
{
    if role == APFS_VOL_ROLE_NONE {
        let mut v: Vec<&'static str> = Vec::new();
        v.push("none");
        assert(name_views(v@) =~= seq!["none"@]);
        return v;
    }
    let mut roles: Vec<&'static str> = Vec::new();
    assert(name_views(roles@) =~= Seq::<Seq<char>>::empty());
    push_if(&mut roles, role & APFS_VOL_ROLE_SYSTEM != 0, "system");
    push_if(&mut roles, role & APFS_VOL_ROLE_USER != 0, "user");
    push_if(&mut roles, role & APFS_VOL_ROLE_RECOVERY != 0, "recovery");
    push_if(&mut roles, role & APFS_VOL_ROLE_VM != 0, "vm");
    push_if(&mut roles, role & APFS_VOL_ROLE_PREBOOT != 0, "preboot");
    push_if(&mut roles, role & APFS_VOL_ROLE_INSTALLER != 0, "installer");
    push_if(&mut roles, role & APFS_VOL_ROLE_DATA != 0, "data");
    push_if(&mut roles, role & APFS_VOL_ROLE_BASEBAND != 0, "baseband");
    proof {
        let named = role_bit(role, APFS_VOL_ROLE_SYSTEM, "system"@) + role_bit(role, APFS_VOL_ROLE_USER, "user"@)
            + role_bit(role, APFS_VOL_ROLE_RECOVERY, "recovery"@) + role_bit(role, APFS_VOL_ROLE_VM, "vm"@)
            + role_bit(role, APFS_VOL_ROLE_PREBOOT, "preboot"@) + role_bit(role, APFS_VOL_ROLE_INSTALLER, "installer"@)
            + role_bit(role, APFS_VOL_ROLE_DATA, "data"@) + role_bit(role, APFS_VOL_ROLE_BASEBAND, "baseband"@);
        assert(name_views(roles@) =~= named);
    }
    if roles.len() == 0 {
        roles.push("unknown");
        assert(name_views(roles@) =~= seq!["unknown"@]);
    }
    roles
}

/// Names of the known incompatible-feature bits that are set.
pub open spec fn volume_incompat_names(raw: u64) -> Seq<Seq<char>> {
    feature_bit(raw, APFS_INCOMPAT_CASE_INSENSITIVE, "case_insensitive"@) + feature_bit(
        raw,
        APFS_INCOMPAT_DATALESS_SNAPS,
        "dataless_snapshots"@,
    ) + feature_bit(raw, APFS_INCOMPAT_ENC_ROLLED, "enc_rolled"@) + feature_bit(
        raw,
        APFS_INCOMPAT_NORMALIZATION_INSENSITIVE,
        "normalization_insensitive"@,
    ) + feature_bit(raw, APFS_INCOMPAT_INCOMPLETE_RESTORE, "incomplete_restore"@) + feature_bit(
        raw,
        APFS_INCOMPAT_SEALED_VOLUME,
        "sealed_volume"@,
    )
}

/// Names of the known `apfs_fs_flags` bits that are set.
pub open spec fn fs_flag_names(raw: u64) -> Seq<Seq<char>> {
    feature_bit(raw, APFS_FS_UNENCRYPTED, "unencrypted"@) + feature_bit(raw, APFS_FS_ONEKEY, "onekey"@)
        + feature_bit(raw, APFS_FS_SPILLEDOVER, "spilledover"@) + feature_bit(
        raw,
        APFS_FS_RUN_SPILLOVER_CLEANER,
        "run_spillover_cleaner"@,
    ) + feature_bit(raw, APFS_FS_ALWAYS_CHECK_EXTENTREF, "always_check_extentref"@)
}

pub open spec fn feature_bit(raw: u64, bit: u64, name: Seq<char>) -> Seq<Seq<char>> {
    if raw & bit != 0 {
        seq![name]
    } else {
        Seq::empty()
    }
}

fn push_if_bit(out: &mut Vec<&'static str>, raw: u64, bit: u64, name: &'static str)
    ensures
        name_views(final(out)@) == name_views(old(out)@) + feature_bit(raw, bit, name@),
{
    if raw & bit != 0 {
        out.push(name);
    }
    assert(name_views(out@) =~= name_views(old(out)@) + feature_bit(raw, bit, name@));
}

// ---- support ------------------------------------------------------------------ //

/// Why a volume with these flags must not be walked, if it must not:
/// runtime encryption, unknown incompatible features, encryption rolling,
/// dataless snapshots, an incomplete restore, or a sealed system volume,
/// checked in that order.
pub open spec fn unsupported_reason(fs_flags: u64, incompat: u64) -> Option<Seq<char>> {
    if fs_flags & APFS_FS_UNENCRYPTED == 0 {
        Some("volume is encrypted at runtime"@)
    } else if incompat & !APFS_INCOMPAT_KNOWN != 0 {
        Some("volume sets unknown incompatible features "@ + hex_prefixed((incompat & !APFS_INCOMPAT_KNOWN) as nat))
    } else if incompat & APFS_INCOMPAT_ENC_ROLLED != 0 {
        Some("volume in encryption-rolling state"@)
    } else if incompat & APFS_INCOMPAT_DATALESS_SNAPS != 0 {
        Some("volume uses dataless snapshots, namespace semantics undefined for v1"@)
    } else if incompat & APFS_INCOMPAT_INCOMPLETE_RESTORE != 0 {
        Some("volume restore is incomplete, walk would mix old and new state"@)
    } else if incompat & APFS_INCOMPAT_SEALED_VOLUME != 0 {
        Some("sealed system volumes are out of v1 raw scope"@)
    } else {
        None
    }
}

pub open spec fn status_matches(s: VolumeSupportStatus, reason: Option<Seq<char>>) -> bool {
    match (s, reason) {
        (VolumeSupportStatus::Supported, None) => true,
        (VolumeSupportStatus::Unsupported(r), Some(t)) => r@ == t,
        _ => false,
    }
}

fn support_status_of(fs_flags_raw: u64, incompat_raw: u64) -> (r: VolumeSupportStatus)
    ensures
        status_matches(r, unsupported_reason(fs_flags_raw, incompat_raw)),
{
    let unknown = incompat_raw & !APFS_INCOMPAT_KNOWN;
    if fs_flags_raw & APFS_FS_UNENCRYPTED == 0 {
        VolumeSupportStatus::Unsupported(owned("volume is encrypted at runtime"))
    } else if unknown != 0 {
        let mut reason = owned("volume sets unknown incompatible features ");
        push_hex_prefixed(&mut reason, unknown);
        VolumeSupportStatus::Unsupported(reason)
    } else if incompat_raw & APFS_INCOMPAT_ENC_ROLLED != 0 {
        VolumeSupportStatus::Unsupported(owned("volume in encryption-rolling state"))
    } else if incompat_raw & APFS_INCOMPAT_DATALESS_SNAPS != 0 {
        VolumeSupportStatus::Unsupported(owned("volume uses dataless snapshots, namespace semantics undefined for v1"))
    } else if incompat_raw & APFS_INCOMPAT_INCOMPLETE_RESTORE != 0 {
        VolumeSupportStatus::Unsupported(owned("volume restore is incomplete, walk would mix old and new state"))
    } else if incompat_raw & APFS_INCOMPAT_SEALED_VOLUME != 0 {
        VolumeSupportStatus::Unsupported(owned("sealed system volumes are out of v1 raw scope"))
    } else {
        VolumeSupportStatus::Supported
    }
}

// ---- the superblock ------------------------------------------------------------ //

/// A virtual `APFS_TYPE_FS` object no newer than `max_xid`.
pub open spec fn volume_expectation(max_xid: u64) -> ObjectExpectation {
    ObjectExpectation {
        object_type: OBJECT_TYPE_FS,
        storage: ExpectedStorage::Virtual,
        max_xid: Some(max_xid),
        require_oid_eq_paddr: false,
    }
}

/// A volume superblock is refused when its header does not validate, its
/// `o_oid` is not the id the container object map was asked for, or it
/// lacks the `APSB` magic.
pub open spec fn volume_refused(block: Seq<u8>, block_address: u64, expected_oid: u64, max_xid: u64) -> bool {
    ||| object_rejection(block, block_address, volume_expectation(max_xid)) is Some
    ||| spec_header(block, block_address).oid != expected_oid
    ||| le32(block, 0x20) != APFS_MAGIC
}

/// `apfs_role`, when the block reaches past it.
pub open spec fn role_of(block: Seq<u8>) -> u16 {
    if block.len() > APFS_ROLE_OFFSET + 2 {
        le16(block, APFS_ROLE_OFFSET as int) as u16
    } else {
        0
    }
}

/// `apfs_volname`, when the block holds all of it.
pub open spec fn volume_name_of(block: Seq<u8>) -> Seq<char> {
    if block.len() >= APFS_VOLNAME_OFFSET + APFS_VOLNAME_LEN {
        lossy_utf8(up_to_nul(block.subrange(APFS_VOLNAME_OFFSET as int, (APFS_VOLNAME_OFFSET + APFS_VOLNAME_LEN) as int)))
    } else {
        Seq::empty()
    }
}

/// `v` holds the fields of the volume superblock `block`.
pub open spec fn volume_matches(v: VolumeSummary, block: Seq<u8>, block_address: u64) -> bool {
    let h = spec_header(block, block_address);
    let incompat = le64(block, 0x38) as u64;
    let fs_flags = le64(block, 0x108) as u64;
    &&& v.block_address == block_address
    &&& v.virtual_oid == h.oid
    &&& v.xid == h.xid
    &&& v.fs_index == le32(block, 0x24) as u32
    &&& v.features_raw == le64(block, 0x28) as u64
    &&& v.readonly_compatible_features_raw == le64(block, 0x30) as u64
    &&& v.incompatible_features_raw == incompat
    &&& v.fs_flags_raw == fs_flags
    &&& name_views(v.incompatible_features@) == volume_incompat_names(incompat)
    &&& name_views(v.fs_flags@) == fs_flag_names(fs_flags)
    &&& v.unsupported_incompatible_features == incompat & !APFS_INCOMPAT_KNOWN
    &&& v.volume_name@ == volume_name_of(block)
    &&& v.volume_uuid_hex@ == uuid_text(block.subrange(0xf0, 0x100))
    &&& v.role_raw == role_of(block)
    &&& name_views(v.role_names@) == role_names_of(role_of(block))
    &&& v.root_tree_type_raw == le32(block, 0x74) as u32
    &&& v.extentref_tree_type_raw == le32(block, 0x78) as u32
    &&& v.snap_meta_tree_type_raw == le32(block, 0x7c) as u32
    &&& v.omap_oid == le64(block, 0x80) as u64
    &&& v.root_tree_virtual_oid == le64(block, 0x88) as u64
    &&& v.extentref_tree_oid == le64(block, 0x90) as u64
    &&& v.snap_meta_tree_oid == le64(block, 0x98) as u64
    &&& v.num_files == le64(block, 0xb8) as u64
    &&& v.num_directories == le64(block, 0xc0) as u64
    &&& v.num_symlinks == le64(block, 0xc8) as u64
    &&& v.num_other_fsobjects == le64(block, 0xd0) as u64
    &&& v.num_snapshots == le64(block, 0xd8) as u64
    &&& v.object_header == h
    &&& name_views(v.object_storage_summary@) == flags_summary_of(h)
    &&& v.case_insensitive == (incompat & APFS_INCOMPAT_CASE_INSENSITIVE != 0)
    &&& v.normalization_insensitive == (incompat & APFS_INCOMPAT_NORMALIZATION_INSENSITIVE != 0)
    &&& v.encrypted_runtime == (fs_flags & APFS_FS_UNENCRYPTED == 0)
    &&& status_matches(v.support_status, unsupported_reason(fs_flags, incompat))
}

/// Decodes the volume superblock in `block`, read at `block_address`,
/// that the container object map resolved for `expected_oid` at
/// `max_xid`.
pub fn decode_volume_summary(block: &[u8], block_address: u64, expected_oid: u64, max_xid: u64) -> (r: Result<
    VolumeSummary,
    ScanError,
>)
    requires
        block@.len() >= APFS_SUPERBLOCK_FIXED,
    ensures
        match r {
            Ok(v) => !volume_refused(block@, block_address, expected_oid, max_xid) && volume_matches(
                v,
                block@,
                block_address,
            ),
            Err(e) => volume_refused(block@, block_address, expected_oid, max_xid) && e is InvalidObject,
        },
{
    let header = validate_object_block(block, block_address, ObjectExpectation::virtual_object(OBJECT_TYPE_FS, Some(max_xid)))?;
    if header.oid != expected_oid {
        let mut m = msg_num2("volume superblock at ", block_address, " has o_oid=", header.oid, " (expected virtual oid ");
        push_decimal(&mut m, expected_oid);
        m.append(")");
        return Err(ScanError::InvalidObject(m));
    }
    if le_u32(block, 0x20) != APFS_MAGIC {
        return Err(ScanError::InvalidObject(msg_num(
            "volume superblock at ",
            block_address,
            " missing APSB magic",
        )));
    }
    let incompat_raw = le_u64(block, 0x38);
    let fs_flags_raw = le_u64(block, 0x108);
    let role_raw = if block.len() > APFS_ROLE_OFFSET + 2 {
        le_u16(block, APFS_ROLE_OFFSET)
    } else {
        0
    };
    let volume_name = if block.len() >= APFS_VOLNAME_OFFSET + APFS_VOLNAME_LEN {
        decode_volname(crate::fs_record_body::slice_range(block, APFS_VOLNAME_OFFSET, APFS_VOLNAME_OFFSET + APFS_VOLNAME_LEN))
    } else {
        String::new()
    };
    let mut incompatible_features: Vec<&'static str> = Vec::new();
    assert(name_views(incompatible_features@) =~= Seq::<Seq<char>>::empty());
    push_if_bit(&mut incompatible_features, incompat_raw, APFS_INCOMPAT_CASE_INSENSITIVE, "case_insensitive");
    push_if_bit(&mut incompatible_features, incompat_raw, APFS_INCOMPAT_DATALESS_SNAPS, "dataless_snapshots");
    push_if_bit(&mut incompatible_features, incompat_raw, APFS_INCOMPAT_ENC_ROLLED, "enc_rolled");
    push_if_bit(
        &mut incompatible_features,
        incompat_raw,
        APFS_INCOMPAT_NORMALIZATION_INSENSITIVE,
        "normalization_insensitive",
    );
    push_if_bit(&mut incompatible_features, incompat_raw, APFS_INCOMPAT_INCOMPLETE_RESTORE, "incomplete_restore");
    push_if_bit(&mut incompatible_features, incompat_raw, APFS_INCOMPAT_SEALED_VOLUME, "sealed_volume");
    let mut fs_flags: Vec<&'static str> = Vec::new();
    assert(name_views(fs_flags@) =~= Seq::<Seq<char>>::empty());
    push_if_bit(&mut fs_flags, fs_flags_raw, APFS_FS_UNENCRYPTED, "unencrypted");
    push_if_bit(&mut fs_flags, fs_flags_raw, APFS_FS_ONEKEY, "onekey");
    push_if_bit(&mut fs_flags, fs_flags_raw, APFS_FS_SPILLEDOVER, "spilledover");
    push_if_bit(&mut fs_flags, fs_flags_raw, APFS_FS_RUN_SPILLOVER_CLEANER, "run_spillover_cleaner");
    push_if_bit(&mut fs_flags, fs_flags_raw, APFS_FS_ALWAYS_CHECK_EXTENTREF, "always_check_extentref");
    let role_names = decode_role(role_raw);
    let support_status = support_status_of(fs_flags_raw, incompat_raw);
    let object_storage_summary = flags_summary(&header);
    Ok(VolumeSummary {
        block_address,
        virtual_oid: header.oid,
        xid: header.xid,
        fs_index: le_u32(block, 0x24),
        features_raw: le_u64(block, 0x28),
        readonly_compatible_features_raw: le_u64(block, 0x30),
        incompatible_features_raw: incompat_raw,
        fs_flags_raw,
        incompatible_features,
        fs_flags,
        unsupported_incompatible_features: incompat_raw & !APFS_INCOMPAT_KNOWN,
        volume_name,
        volume_uuid_hex: format_uuid(crate::fs_record_body::slice_range(block, 0xf0, 0x100)),
        role_raw,
        role_names,
        root_tree_type_raw: le_u32(block, 0x74),
        extentref_tree_type_raw: le_u32(block, 0x78),
        snap_meta_tree_type_raw: le_u32(block, 0x7c),
        omap_oid: le_u64(block, 0x80),
        root_tree_virtual_oid: le_u64(block, 0x88),
        extentref_tree_oid: le_u64(block, 0x90),
        snap_meta_tree_oid: le_u64(block, 0x98),
        num_files: le_u64(block, 0xb8),
        num_directories: le_u64(block, 0xc0),
        num_symlinks: le_u64(block, 0xc8),
        num_other_fsobjects: le_u64(block, 0xd0),
        num_snapshots: le_u64(block, 0xd8),
        object_header: header,
        object_storage_summary,
        case_insensitive: incompat_raw & APFS_INCOMPAT_CASE_INSENSITIVE != 0,
        normalization_insensitive: incompat_raw & APFS_INCOMPAT_NORMALIZATION_INSENSITIVE != 0,
        encrypted_runtime: fs_flags_raw & APFS_FS_UNENCRYPTED == 0,
        support_status,
    })
}

} // verus!
