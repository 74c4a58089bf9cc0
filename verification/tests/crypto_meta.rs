use apfs_fastindex::crypto_meta::{
    cp_key_class_name, ContainerCryptoMeta, VolumeMetaCryptoState, APFS_META_CRYPTO_OFFSET, NX_KEYLOCKER_OFFSET,
    NX_MKB_LOCKER_OFFSET,
};

fn block_with_u64s(pairs: &[(usize, u64)]) -> Vec<u8> {
    let mut block = vec![0u8; 4096];
    for (offset, value) in pairs {
        block[*offset..*offset + 8].copy_from_slice(&value.to_le_bytes());
    }
    block
}

fn block_with_u16(block: &mut [u8], offset: usize, value: u16) {
    block[offset..offset + 2].copy_from_slice(&value.to_le_bytes());
}

fn block_with_u32(block: &mut [u8], offset: usize, value: u32) {
    block[offset..offset + 4].copy_from_slice(&value.to_le_bytes());
}

#[test]
fn container_crypto_meta_zero_on_unencrypted() {
    let block = vec![0u8; 4096];
    let meta = ContainerCryptoMeta::from_nx_superblock(&block);
    assert_eq!(meta.keylocker_block_start, 0);
    assert_eq!(meta.keylocker_block_count, 0);
    assert_eq!(meta.media_keybag_block_start, 0);
    assert_eq!(meta.media_keybag_block_count, 0);
    assert!(!meta.has_keylocker());
    assert!(!meta.has_media_keybag());
}

#[test]
fn container_crypto_meta_reads_synthetic_encrypted() {
    let block = block_with_u64s(&[
        (NX_KEYLOCKER_OFFSET, 0x1234),
        (NX_KEYLOCKER_OFFSET + 8, 1),
        (NX_MKB_LOCKER_OFFSET, 0x5678),
        (NX_MKB_LOCKER_OFFSET + 8, 4),
    ]);
    let meta = ContainerCryptoMeta::from_nx_superblock(&block);
    assert_eq!(meta.keylocker_block_start, 0x1234);
    assert_eq!(meta.keylocker_block_count, 1);
    assert_eq!(meta.media_keybag_block_start, 0x5678);
    assert_eq!(meta.media_keybag_block_count, 4);
    assert!(meta.has_keylocker());
    assert!(meta.has_media_keybag());
}

#[test]
fn container_crypto_meta_locker_independence() {
    let block = block_with_u64s(&[(NX_KEYLOCKER_OFFSET, 0x1234), (NX_KEYLOCKER_OFFSET + 8, 1)]);
    let meta = ContainerCryptoMeta::from_nx_superblock(&block);
    assert!(meta.has_keylocker());
    assert!(!meta.has_media_keybag());
}

#[test]
fn volume_meta_crypto_zero_block() {
    let block = vec![0u8; 4096];
    let meta = VolumeMetaCryptoState::from_apfs_superblock(&block);
    assert_eq!(meta.major_version, 0);
    assert_eq!(meta.persistent_class, 0);
    assert_eq!(meta.persistent_class_name, Some("CPROTECT_CLASS_DIR_NONE"));
    assert_eq!(meta.key_len, 0);
}

#[test]
fn volume_meta_crypto_class_c_data_volume() {
    let mut block = vec![0u8; 4096];
    let base = APFS_META_CRYPTO_OFFSET;
    block_with_u16(&mut block, base, 5);
    block_with_u16(&mut block, base + 2, 0);
    block_with_u32(&mut block, base + 4, 0);
    block_with_u32(&mut block, base + 8, 3);
    block_with_u32(&mut block, base + 12, 0x14_04_00_00);
    block_with_u16(&mut block, base + 16, 1);
    block_with_u16(&mut block, base + 18, 0);

    let meta = VolumeMetaCryptoState::from_apfs_superblock(&block);
    assert_eq!(meta.major_version, 5);
    assert_eq!(meta.persistent_class, 3);
    assert!(
        meta.persistent_class_name.unwrap().starts_with("CPROTECT_CLASS_C"),
        "got: {:?}",
        meta.persistent_class_name
    );
    assert_eq!(meta.key_revision, 1);
    assert_eq!(meta.key_len, 0, "meta_crypto must not carry a key");
}

#[test]
fn cp_key_class_name_decodes_known_classes() {
    assert_eq!(cp_key_class_name(0), Some("CPROTECT_CLASS_DIR_NONE"));
    assert!(cp_key_class_name(1).unwrap().starts_with("CPROTECT_CLASS_A"));
    assert!(cp_key_class_name(2).unwrap().starts_with("CPROTECT_CLASS_B"));
    assert!(cp_key_class_name(3).unwrap().starts_with("CPROTECT_CLASS_C"));
    assert!(cp_key_class_name(4).unwrap().starts_with("CPROTECT_CLASS_D"));
    assert!(cp_key_class_name(6).unwrap().starts_with("CPROTECT_CLASS_F"));
    assert_eq!(cp_key_class_name(5), None, "class 5 is unused/reserved");
    assert_eq!(cp_key_class_name(0x1f & 7), None, "class 7 is unused");
}

#[test]
fn cp_key_class_name_masks_off_flag_bits() {
    let name = cp_key_class_name(0xc3).expect("Class C with flags");
    assert!(name.starts_with("CPROTECT_CLASS_C"));
}

#[test]
fn cp_key_class_name_depends_only_on_low_five_bits() {
    for class in 0u32..64 {
        assert_eq!(cp_key_class_name(class), cp_key_class_name(class & 0x1f));
        assert_eq!(cp_key_class_name(class | 0xffff_ffe0), cp_key_class_name(class & 0x1f));
    }
}
