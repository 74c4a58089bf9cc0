//! Read-only APFS on-disk parser: checkpoint discovery, object-header
//! validation, B-tree node access, object-map resolution, FS-tree record
//! decoding and namespace reconstruction, all over an in-memory image of the
//! container's bytes.

pub mod block_io;
pub mod text;
pub mod sort;
pub mod object;
pub mod btree;
pub mod checkpoint;
pub mod omap;
pub mod container;
pub mod fs_record_body;
pub mod fs_records;
pub mod namespace;
pub mod volume;
pub mod crypto_meta;
pub mod native;
pub mod source;
pub mod tree;
pub mod ext_summary;
pub mod extent_ref;
pub mod fallback_bulk;
pub mod snapshots;
pub mod fallback;
pub mod cache;
pub mod render;
pub mod server;
pub mod parity;

use vstd::prelude::*;

verus! {

/// Everything that can make the native parser stop. Every malformed input
/// is reported through one of these variants; nothing panics.
#[derive(Debug)]
pub enum ScanError {
    /// A block read ran past the end of the image.
    ShortRead { block_address: u64, expected: usize, actual: usize },
    InvalidBlockZero(String),
    UnsupportedDescriptorLayout(String),
    NoCheckpointCandidates,
    InvalidObject(String),
    UnsupportedContainerFeature(String),
}

/// The text a scan error reads as.
pub open spec fn scan_error_text(e: ScanError) -> Seq<char> {
    match e {
        ScanError::ShortRead { block_address, expected, actual } => "short read at block "@ + text::decimal(
            block_address as nat,
        ) + ": expected "@ + text::decimal(expected as nat) + " bytes, read "@ + text::decimal(actual as nat),
        ScanError::InvalidBlockZero(reason) => "invalid APFS block zero: "@ + reason@,
        ScanError::UnsupportedDescriptorLayout(reason) => "unsupported checkpoint descriptor layout: "@ + reason@,
        ScanError::NoCheckpointCandidates => "no valid checkpoint NXSB candidates found"@,
        ScanError::InvalidObject(reason) => "APFS object validation failed: "@ + reason@,
        ScanError::UnsupportedContainerFeature(reason) => "unsupported container feature: "@ + reason@,
    }
}

impl ScanError {
    /// The human-readable text of the error.
    pub fn message(&self) -> (r: String)
        ensures
            r@ == scan_error_text(*self),
    {
        match self {
            ScanError::ShortRead { block_address, expected, actual } => {
                let mut out = text::msg_num("short read at block ", *block_address, ": expected ");
                text::push_decimal(&mut out, *expected as u64);
                out.append(" bytes, read ");
                text::push_decimal(&mut out, *actual as u64);
                out
            },
            ScanError::InvalidBlockZero(reason) => {
                let mut out = text::owned("invalid APFS block zero: ");
                out.append(reason.as_str());
                out
            },
            ScanError::UnsupportedDescriptorLayout(reason) => {
                let mut out = text::owned("unsupported checkpoint descriptor layout: ");
                out.append(reason.as_str());
                out
            },
            ScanError::NoCheckpointCandidates => text::owned("no valid checkpoint NXSB candidates found"),
            ScanError::InvalidObject(reason) => {
                let mut out = text::owned("APFS object validation failed: ");
                out.append(reason.as_str());
                out
            },
            ScanError::UnsupportedContainerFeature(reason) => {
                let mut out = text::owned("unsupported container feature: ");
                out.append(reason.as_str());
                out
            },
        }
    }
}

} // verus!
