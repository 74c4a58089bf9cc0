//! Encryption metadata of the container and volume superblocks.
//!
//! Two `prange_t` lockers of `nx_superblock_t` (`nx_keylocker` at 0x510,
//! `nx_mkb_locker` at 0x570) and the `wrapped_meta_crypto_state_t` of
//! `apfs_superblock_t` (at 0x60). None of them holds key material: they are
//! block pointers and algorithm-version pins.

use vstd::prelude::*;

use crate::block_io::{le16, le32, le64, le_u16, le_u32, le_u64};

verus! {

/// Offset of `nx_keylocker` in the container superblock.
pub const NX_KEYLOCKER_OFFSET: usize = 0x510;

/// Offset of `nx_mkb_locker` in the container superblock.
pub const NX_MKB_LOCKER_OFFSET: usize = 0x570;

/// Offset of `apfs_meta_crypto` in the volume superblock.
pub const APFS_META_CRYPTO_OFFSET: usize = 0x60;

/// The name of a `cp_key_class_t`; only its low five bits carry the class.
pub open spec fn cp_key_class_text(class: u32) -> Option<Seq<char>> {
    let c = class & 0x1f;
    if c == 0 {
        Some("CPROTECT_CLASS_DIR_NONE"@)
    } else if c == 1 {
        Some("CPROTECT_CLASS_A (NSFileProtectionComplete)"@)
    } else if c == 2 {
        Some("CPROTECT_CLASS_B (NSFileProtectionCompleteUnlessOpen)"@)
    } else if c == 3 {
        Some("CPROTECT_CLASS_C (NSFileProtectionCompleteUntilFirstUserAuthentication)"@)
    } else if c == 4 {
        Some("CPROTECT_CLASS_D (NSFileProtectionNone)"@)
    } else if c == 6 {
        Some("CPROTECT_CLASS_F (internal / no protection)"@)
    } else {
        None
    }
}

/// `r` is the text `t`, both absent or both present and equal.
pub open spec fn name_is(r: Option<&'static str>, t: Option<Seq<char>>) -> bool {
    match (r, t) {
        (None, None) => true,
        (Some(s), Some(u)) => s@ == u,
        _ => false,
    }
}

/// The name of the file-protection class `class`, or `None` for the
/// unused class numbers.
pub fn cp_key_class_name(class: u32) -> (r: Option<&'static str>)
    ensures
        name_is(r, cp_key_class_text(class)),
{
    let c = class & 0x1f;
    if c == 0 {
        Some("CPROTECT_CLASS_DIR_NONE")
    } else if c == 1 {
        Some("CPROTECT_CLASS_A (NSFileProtectionComplete)")
    } else if c == 2 {
        Some("CPROTECT_CLASS_B (NSFileProtectionCompleteUnlessOpen)")
    } else if c == 3 {
        Some("CPROTECT_CLASS_C (NSFileProtectionCompleteUntilFirstUserAuthentication)")
    } else if c == 4 {
        Some("CPROTECT_CLASS_D (NSFileProtectionNone)")
    } else if c == 6 {
        Some("CPROTECT_CLASS_F (internal / no protection)")
    } else {
        None
    }
}

/// The flag bits above the low five never change which class a
/// `cp_key_class_t` names.
pub proof fn lemma_class_ignores_flag_bits(class: u32)
    ensures
        cp_key_class_text(class) == cp_key_class_text(class & 0x1f),
{
    assert((class & 0x1f) & 0x1f == class & 0x1f) by (bit_vector);
}

/// Container-level encryption metadata: where the keylocker and the
/// media-keybag locker lie. Zero on an unencrypted container.
#[derive(Debug, Clone, PartialEq, Eq, Structural)]
pub struct ContainerCryptoMeta {
    pub keylocker_block_start: u64,
    pub keylocker_block_count: u64,
    pub media_keybag_block_start: u64,
    pub media_keybag_block_count: u64,
}

impl ContainerCryptoMeta {
    /// Reads both lockers from a container superblock block.
    pub fn from_nx_superblock(block: &[u8]) -> (r: Self)
        requires
            NX_MKB_LOCKER_OFFSET + 16 <= block@.len(),
        ensures
            r.keylocker_block_start == le64(block@, NX_KEYLOCKER_OFFSET as int),
            r.keylocker_block_count == le64(block@, NX_KEYLOCKER_OFFSET + 8),
            r.media_keybag_block_start == le64(block@, NX_MKB_LOCKER_OFFSET as int),
            r.media_keybag_block_count == le64(block@, NX_MKB_LOCKER_OFFSET + 8),
    {
        ContainerCryptoMeta {
            keylocker_block_start: le_u64(block, NX_KEYLOCKER_OFFSET),
            keylocker_block_count: le_u64(block, NX_KEYLOCKER_OFFSET + 8),
            media_keybag_block_start: le_u64(block, NX_MKB_LOCKER_OFFSET),
            media_keybag_block_count: le_u64(block, NX_MKB_LOCKER_OFFSET + 8),
        }
    }

    /// Whether the container is encrypted at the container layer.
    pub fn has_keylocker(&self) -> (r: bool)
        ensures
            r == (self.keylocker_block_count > 0),
    {
        self.keylocker_block_count > 0
    }

    /// Whether the container has a media-keybag locker.
    pub fn has_media_keybag(&self) -> (r: bool)
        ensures
            r == (self.media_keybag_block_count > 0),
    {
        self.media_keybag_block_count > 0
    }
}

/// The volume-level metadata crypto descriptor. It carries no key bytes.
#[derive(Debug, Clone, PartialEq, Eq)]
pub struct VolumeMetaCryptoState {
    pub major_version: u16,
    pub minor_version: u16,
    pub cpflags: u32,
    pub persistent_class: u32,
    pub persistent_class_name: Option<&'static str>,
    pub key_os_version: u32,
    pub key_revision: u16,
    pub key_len: u16,
}

impl VolumeMetaCryptoState {
    /// Reads `apfs_meta_crypto` from a volume superblock block.
    pub fn from_apfs_superblock(block: &[u8]) -> (r: Self)
        requires
            APFS_META_CRYPTO_OFFSET + 20 <= block@.len(),
        ensures
            r.major_version == le16(block@, APFS_META_CRYPTO_OFFSET as int),
            r.minor_version == le16(block@, APFS_META_CRYPTO_OFFSET + 2),
            r.cpflags == le32(block@, APFS_META_CRYPTO_OFFSET + 4),
            r.persistent_class == le32(block@, APFS_META_CRYPTO_OFFSET + 8),
            name_is(r.persistent_class_name, cp_key_class_text(r.persistent_class)),
            r.key_os_version == le32(block@, APFS_META_CRYPTO_OFFSET + 12),
            r.key_revision == le16(block@, APFS_META_CRYPTO_OFFSET + 16),
            r.key_len == le16(block@, APFS_META_CRYPTO_OFFSET + 18),
    {
        let base = APFS_META_CRYPTO_OFFSET;
        let persistent_class = le_u32(block, base + 8);
        VolumeMetaCryptoState {
            major_version: le_u16(block, base),
            minor_version: le_u16(block, base + 2),
            cpflags: le_u32(block, base + 4),
            persistent_class,
            persistent_class_name: cp_key_class_name(persistent_class),
            key_os_version: le_u32(block, base + 12),
            key_revision: le_u16(block, base + 16),
            key_len: le_u16(block, base + 18),
        }
    }
}

} // verus!
