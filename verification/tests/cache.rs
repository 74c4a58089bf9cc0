use apfs_fastindex::cache::{id_from_hash, CacheError, CacheKey, CacheManifest, CACHE_PARSER_VERSION};

#[test]
fn key_id_is_stable_and_sixteen_hex_digits() {
    let a = CacheKey::for_path("/Users/x", 42);
    let b = CacheKey::for_path("/Users/x", 42);
    assert_eq!(a.parser_version, CACHE_PARSER_VERSION);
    assert_eq!(a.id(), b.id());
    let id = a.id();
    assert_eq!(id.len(), 16);
    assert!(id.chars().all(|c| c.is_ascii_hexdigit() && !c.is_ascii_uppercase()));
    assert_ne!(a.id(), CacheKey::for_path("/Users/y", 42).id());
}

#[test]
fn manifest_matches_only_same_key_and_signature() {
    let key = CacheKey::for_path("/data", 7);
    let m = CacheManifest::new(&key, 0xabc, 10, 2, 512, 1_700_000_000);
    assert_eq!(m.key_scan_root, "/data");
    assert_eq!(m.entry_count, 10);
    assert!(m.matches(&key, 0xabc));
    assert!(!m.matches(&key, 0xabd));
    assert!(!m.matches(&CacheKey::for_path("/data", 8), 0xabc));
    assert!(!m.matches(&CacheKey::for_path("/other", 7), 0xabc));
}

#[test]
fn cache_error_texts() {
    assert_eq!(CacheError::NoVolumeUuid.message(), "could not determine volume UUID");
    assert_eq!(CacheError::BadKey("x".into()).message(), "bad cache key: x");
    assert_eq!(CacheError::Io("denied".into()).message(), "cache I/O: denied");
    assert_eq!(CacheError::Serialize("eof".into()).message(), "cache serialise: eof");
}

#[test]
fn id_from_hash_pads_to_sixteen_hex_digits() {
    assert_eq!(id_from_hash(0), "0000000000000000");
    assert_eq!(id_from_hash(0xabc), "0000000000000abc");
    assert_eq!(id_from_hash(u64::MAX), "ffffffffffffffff");
    assert_eq!(id_from_hash(0x0123_4567_89ab_cdef), "0123456789abcdef");
}
