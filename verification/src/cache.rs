//! Identity and validity of cached fallback scans.
//!
//! A cached scan is keyed by the volume, the canonical scan root and the
//! walker's output version, and is valid only while the tree's directory
//! signature is unchanged. Reading and writing the cache files, and
//! computing the signature, are the caller's work.

use std::hash::BuildHasher;

use vstd::prelude::*;

use crate::text::{hex, owned, push_hex_prefixed_width, zero_pad};

verus! {

/// Version tag of the walker's output; a cached scan written under another
/// tag never matches.
pub const CACHE_PARSER_VERSION: &'static str = "apfs-fastindex-fallback-0.1.0";

/// Why a cache operation failed.
#[derive(Debug, Clone, PartialEq, Eq)]
pub enum CacheError {
    /// An I/O failure, with its text.
    Io(String),
    NoVolumeUuid,
    BadKey(String),
    Serialize(String),
}

pub open spec fn cache_error_text(e: CacheError) -> Seq<char> {
    match e {
        CacheError::Io(m) => "cache I/O: "@ + m@,
        CacheError::NoVolumeUuid => "could not determine volume UUID"@,
        CacheError::BadKey(m) => "bad cache key: "@ + m@,
        CacheError::Serialize(m) => "cache serialise: "@ + m@,
    }
}

impl CacheError {
    /// The text the error reads as.
    pub fn message(&self) -> (r: String)
        ensures
            r@ == cache_error_text(*self),
    {
        match self {
            CacheError::Io(m) => {
                let mut out = owned("cache I/O: ");
                out.append(m.as_str());
                out
            },
            CacheError::NoVolumeUuid => owned("could not determine volume UUID"),
            CacheError::BadKey(m) => {
                let mut out = owned("bad cache key: ");
                out.append(m.as_str());
                out
            },
            CacheError::Serialize(m) => {
                let mut out = owned("cache serialise: ");
                out.append(m.as_str());
                out
            },
        }
    }
}

/// The identity of one cached scan.
#[derive(Debug, Clone, PartialEq, Eq)]
pub struct CacheKey {
    pub volume_id: u64,
    pub scan_root_canonical: String,
    pub parser_version: String,
}

/// The standard library's default hasher over `(volume_id, scan_root as a
/// path, parser_version)`, through `BuildHasher::hash_one`. Nothing is
/// promised of the value: the algorithm is the standard library's and may
/// change between its releases.
#[verifier::external_body]
fn key_hash(volume_id: u64, scan_root: &str, parser_version: &str) -> u64 {
    std::hash::BuildHasherDefault::<std::collections::hash_map::DefaultHasher>::default().hash_one(
        (volume_id, std::path::Path::new(scan_root), parser_version),
    )
}

impl CacheKey {
    /// The key of a scan of the canonical root `scan_root_canonical` on the
    /// volume `volume_id`, under the current output version.
    pub fn for_path(scan_root_canonical: &str, volume_id: u64) -> (k: Self)
        ensures
            k.volume_id == volume_id,
            k.scan_root_canonical@ == scan_root_canonical@,
            k.parser_version@ == CACHE_PARSER_VERSION@,
    {
        CacheKey {
            volume_id,
            scan_root_canonical: owned(scan_root_canonical),
            parser_version: owned(CACHE_PARSER_VERSION),
        }
    }

    /// A file-name-safe identifier of the key: sixteen lowercase hex digits
    /// of the key's hash.
    pub fn id(&self) -> (r: String)
        ensures
            exists|h: u64| r@ == zero_pad(hex(h as nat), 16),
    {
        let h = key_hash(self.volume_id, self.scan_root_canonical.as_str(), self.parser_version.as_str());
        id_from_hash(h)
    }
}

/// The identifier of a key whose hash is `h`: `h` as sixteen lowercase hex
/// digits, zero-padded.
pub fn id_from_hash(h: u64) -> (r: String)
    ensures
        r@ == zero_pad(hex(h as nat), 16),
{
    let mut prefixed = String::new();
    push_hex_prefixed_width(&mut prefixed, h, 18);
    let n = prefixed.as_str().unicode_len();
    proof {
        assert(prefixed@ =~= seq!['0', 'x'] + zero_pad(hex(h as nat), 16));
    }
    let r = owned(prefixed.as_str().substring_char(2, n));
    assert(r@ =~= zero_pad(hex(h as nat), 16));
    r
}

/// What is stored beside a cached scan.
#[derive(Debug, Clone, PartialEq, Eq)]
pub struct CacheManifest {
    pub key_volume_id: u64,
    pub key_scan_root: String,
    pub key_parser_version: String,
    /// Unix seconds when the scan was captured.
    pub generated_at_unix_s: u64,
    /// Hash over every directory's path and times; the validity check.
    pub directory_signature: u64,
    pub entry_count: usize,
    pub aggregate_count: usize,
    pub scan_msgpack_bytes: u64,
}

impl CacheManifest {
    /// The manifest of a scan stored under `key`.
    pub fn new(
        key: &CacheKey,
        directory_signature: u64,
        entry_count: usize,
        aggregate_count: usize,
        scan_msgpack_bytes: u64,
        generated_at_unix_s: u64,
    ) -> (m: Self)
        ensures
            m.key_volume_id == key.volume_id,
            m.key_scan_root@ == key.scan_root_canonical@,
            m.key_parser_version@ == key.parser_version@,
            m.generated_at_unix_s == generated_at_unix_s,
            m.directory_signature == directory_signature,
            m.entry_count == entry_count,
            m.aggregate_count == aggregate_count,
            m.scan_msgpack_bytes == scan_msgpack_bytes,
    {
        CacheManifest {
            key_volume_id: key.volume_id,
            key_scan_root: owned(key.scan_root_canonical.as_str()),
            key_parser_version: owned(key.parser_version.as_str()),
            generated_at_unix_s,
            directory_signature,
            entry_count,
            aggregate_count,
            scan_msgpack_bytes,
        }
    }

    /// Whether the cached scan this manifest describes answers `key` for a
    /// tree whose signature is now `current_signature`: same version,
    /// volume and root, and an unchanged signature.
    pub fn matches(&self, key: &CacheKey, current_signature: u64) -> (r: bool)
        ensures
            r == (self.key_parser_version@ == key.parser_version@ && self.key_volume_id == key.volume_id
                && self.key_scan_root@ == key.scan_root_canonical@ && self.directory_signature
                == current_signature),
    {
        crate::namespace::str_eq(self.key_parser_version.as_str(), key.parser_version.as_str())
            && self.key_volume_id == key.volume_id && crate::namespace::str_eq(
            self.key_scan_root.as_str(),
            key.scan_root_canonical.as_str(),
        ) && self.directory_signature == current_signature
    }
}

} // verus!
