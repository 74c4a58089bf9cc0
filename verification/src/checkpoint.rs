//! Checkpoint discovery: block-zero validation and the scan of the
//! checkpoint descriptor area for container-superblock (`NXSB`) candidates.

use vstd::prelude::*;

use crate::block_io::{available_at, checksum_matches, checksum_ok, le32, le64, le_u32, le_u64, read_block};
use crate::object::{OBJECT_TYPE_MASK, OBJECT_TYPE_NX_SUPERBLOCK};
use crate::text::{hex_prefixed, msg_num, owned, push_hex_prefixed};
use crate::ScanError;

verus! {

/// `NXSB` container-superblock magic.
pub const NX_MAGIC: u32 = 0x4253_584e;
/// Object id of the container superblock.
pub const NX_SUPERBLOCK_OID: u64 = 1;
pub const MIN_BLOCK_SIZE: u32 = 4096;
pub const MAX_BLOCK_SIZE: u32 = 65536;
/// Fail-closed bound on the checkpoint descriptor area.
pub const MAX_DESCRIPTOR_BLOCKS: u32 = 10_000;

/// A checkpoint-descriptor block that carries a valid container
/// superblock.
#[derive(Debug, Clone, Copy, PartialEq, Eq, Structural)]
pub struct NxsbCandidate {
    pub descriptor_index: u32,
    pub block_address: u64,
    pub oid: u64,
    pub xid: u64,
    pub object_type_raw: u32,
    pub object_subtype: u32,
    pub checksum: u64,
}

/// A descriptor block with the `NXSB` magic that was nevertheless refused.
#[derive(Debug, Clone)]
pub struct SkippedDescriptor {
    pub descriptor_index: u32,
    pub block_address: u64,
    pub reason: String,
}

/// Result of the descriptor-area scan.
#[derive(Debug, Clone)]
pub struct ScanReport {
    pub block_size: u32,
    pub descriptor_blocks: u32,
    pub descriptor_base: u64,
    pub descriptor_base_non_contiguous: bool,
    pub candidates: Vec<NxsbCandidate>,
    pub skipped_descriptors: Vec<SkippedDescriptor>,
}

/// Checkpoint-level facts that the parser output carries.
#[derive(Debug, Clone)]
pub struct ScanState {
    pub block_size: u32,
    pub descriptor_blocks: u32,
    pub descriptor_base: u64,
    pub descriptor_base_non_contiguous: bool,
    pub highest_xid: u64,
    pub candidate_count: usize,
    pub validation_gaps: Vec<String>,
}

/// The kind of a scan failure, without its message.
#[derive(PartialEq, Eq, Structural)]
pub enum ScanFailure {
    ShortRead { block_address: u64, expected: usize, actual: usize },
    InvalidBlockZero,
    UnsupportedDescriptorLayout,
    NoCheckpointCandidates,
    InvalidObject,
    UnsupportedContainerFeature,
}

/// The kind of `e`.
pub open spec fn failure_of(e: ScanError) -> ScanFailure {
    match e {
        ScanError::ShortRead { block_address, expected, actual } => ScanFailure::ShortRead {
            block_address,
            expected,
            actual,
        },
        ScanError::InvalidBlockZero(_) => ScanFailure::InvalidBlockZero,
        ScanError::UnsupportedDescriptorLayout(_) => ScanFailure::UnsupportedDescriptorLayout,
        ScanError::NoCheckpointCandidates => ScanFailure::NoCheckpointCandidates,
        ScanError::InvalidObject(_) => ScanFailure::InvalidObject,
        ScanError::UnsupportedContainerFeature(_) => ScanFailure::UnsupportedContainerFeature,
    }
}

/// How a read of block `addr` of `size` bytes fails, if it does.
pub open spec fn read_failure(image_len: int, addr: u64, size: usize) -> Option<ScanFailure> {
    if addr * size > u64::MAX {
        Some(ScanFailure::UnsupportedDescriptorLayout)
    } else if addr * size + size > image_len {
        Some(
            ScanFailure::ShortRead {
                block_address: addr,
                expected: size,
                actual: available_at(image_len, addr * size, size as int) as usize,
            },
        )
    } else {
        None
    }
}

/// The bytes of block `addr` when it reads.
pub open spec fn block_at(image: Seq<u8>, addr: u64, size: usize) -> Seq<u8> {
    image.subrange(addr * size, addr * size + size)
}

/// Block sizes in the current allowlist: 4 KiB to 64 KiB, powers of two.
pub open spec fn block_size_allowed(bs: u32) -> bool {
    bs == 4096 || bs == 8192 || bs == 16384 || bs == 32768 || bs == 65536
}

/// Whether `raw`'s kind bits name the container superblock.
pub open spec fn nxsb_type(raw: u32) -> bool {
    raw & OBJECT_TYPE_MASK == OBJECT_TYPE_NX_SUPERBLOCK
}

/// Checks that the block size is in the allowlist.
pub fn validate_block_size(block_size: u32) -> (r: Result<(), ScanError>)
    ensures
        block_size_allowed(block_size) ==> r is Ok,
        !block_size_allowed(block_size) ==> r matches Err(ScanError::InvalidBlockZero(_)),
{
    if block_size < MIN_BLOCK_SIZE || block_size > MAX_BLOCK_SIZE {
        return Err(ScanError::InvalidBlockZero(msg_num(
            "block size ",
            block_size as u64,
            " is outside the current allowlist",
        )));
    }
    if !(block_size == 4096 || block_size == 8192 || block_size == 16384 || block_size == 32768
        || block_size == 65536) {
        return Err(ScanError::InvalidBlockZero(msg_num(
            "block size ",
            block_size as u64,
            " is not a power of two",
        )));
    }
    Ok(())
}

/// Whether `raw`'s kind bits name the container superblock.
pub fn is_nxsb_type(object_type_raw: u32) -> (b: bool)
    ensures
        b == nxsb_type(object_type_raw),
{
    object_type_raw & OBJECT_TYPE_MASK == OBJECT_TYPE_NX_SUPERBLOCK
}

/// Whether block zero is a valid container superblock: magic, kind,
/// object id and checksum.
pub open spec fn block_zero_valid(b: Seq<u8>) -> bool {
    &&& le32(b, 0x20) == NX_MAGIC
    &&& nxsb_type(le32(b, 0x18) as u32)
    &&& le64(b, 0x08) == NX_SUPERBLOCK_OID
    &&& checksum_ok(b)
}

/// Validates block zero as a container superblock.
pub fn validate_nxsb_block0(block: &[u8]) -> (r: Result<(), ScanError>)
    requires
        block@.len() >= 0x24,
    ensures
        block_zero_valid(block@) ==> r is Ok,
        !block_zero_valid(block@) ==> r matches Err(ScanError::InvalidBlockZero(_)),
{
    if le_u32(block, 0x20) != NX_MAGIC {
        return Err(ScanError::InvalidBlockZero(owned("missing NXSB magic at block zero")));
    }
    if !is_nxsb_type(le_u32(block, 0x18)) {
        return Err(ScanError::InvalidBlockZero(owned("block-zero object type is not NX_SUPERBLOCK")));
    }
    if le_u64(block, 0x08) != NX_SUPERBLOCK_OID {
        return Err(ScanError::InvalidBlockZero(
            owned("block-zero object id is not the NX superblock object id"),
        ));
    }
    if !checksum_matches(block) {
        return Err(ScanError::InvalidBlockZero(owned("block-zero object checksum is invalid")));
    }
    Ok(())
}

/// The candidate a descriptor block describes.
pub open spec fn spec_candidate(b: Seq<u8>, descriptor_index: u32, block_address: u64) -> NxsbCandidate {
    NxsbCandidate {
        descriptor_index,
        block_address,
        oid: le64(b, 0x08) as u64,
        xid: le64(b, 0x10) as u64,
        object_type_raw: le32(b, 0x18) as u32,
        object_subtype: le32(b, 0x1c) as u32,
        checksum: le64(b, 0x00) as u64,
    }
}

/// What a descriptor block is: not an `NXSB` at all, a candidate, or an
/// `NXSB` that is refused (wrong object kind, bad checksum).
pub enum DescriptorKind {
    NotNxsb,
    Candidate,
    WrongType,
    BadChecksum,
}

pub open spec fn descriptor_kind(b: Seq<u8>) -> DescriptorKind {
    if le32(b, 0x20) != NX_MAGIC {
        DescriptorKind::NotNxsb
    } else if !nxsb_type(le32(b, 0x18) as u32) {
        DescriptorKind::WrongType
    } else if !checksum_ok(b) {
        DescriptorKind::BadChecksum
    } else {
        DescriptorKind::Candidate
    }
}

/// The refusal reason recorded for an `NXSB` descriptor block.
pub open spec fn skip_reason(b: Seq<u8>) -> Seq<char> {
    match descriptor_kind(b) {
        DescriptorKind::WrongType => "NXSB magic with non-NX-superblock object type "@ + hex_prefixed(
            le32(b, 0x18) as nat,
        ),
        _ => "NXSB checksum mismatch"@,
    }
}

/// Classifies one checkpoint-descriptor block.
pub fn parse_nxsb_candidate(block: &[u8], descriptor_index: u32, block_address: u64) -> (r: Result<
    Option<NxsbCandidate>,
    String,
>)
    requires
        block@.len() >= 0x24,
    ensures
        descriptor_kind(block@) is NotNxsb ==> r == Ok::<Option<NxsbCandidate>, String>(None),
        descriptor_kind(block@) is Candidate ==> r == Ok::<Option<NxsbCandidate>, String>(
            Some(spec_candidate(block@, descriptor_index, block_address)),
        ),
        (descriptor_kind(block@) is WrongType || descriptor_kind(block@) is BadChecksum) ==> (r matches Err(
            reason,
        ) && reason@ == skip_reason(block@)),
{
    if le_u32(block, 0x20) != NX_MAGIC {
        return Ok(None);
    }
    let object_type_raw = le_u32(block, 0x18);
    if !is_nxsb_type(object_type_raw) {
        let mut reason = owned("NXSB magic with non-NX-superblock object type ");
        push_hex_prefixed(&mut reason, object_type_raw as u64);
        return Err(reason);
    }
    if !checksum_matches(block) {
        return Err(owned("NXSB checksum mismatch"));
    }
    Ok(Some(NxsbCandidate {
        descriptor_index,
        block_address,
        oid: le_u64(block, 0x08),
        xid: le_u64(block, 0x10),
        object_type_raw,
        object_subtype: le_u32(block, 0x1c),
        checksum: le_u64(block, 0x00),
    }))
}

/// Candidates among the first `n` descriptor blocks at `base`.
pub open spec fn candidates_in(image: Seq<u8>, base: u64, bs: u32, n: int) -> Seq<NxsbCandidate>
    decreases n,
{
    if n <= 0 {
        Seq::empty()
    } else {
        let prev = candidates_in(image, base, bs, n - 1);
        let addr = (base + (n - 1)) as u64;
        let b = block_at(image, addr, bs as usize);
        if descriptor_kind(b) is Candidate {
            prev.push(spec_candidate(b, (n - 1) as u32, addr))
        } else {
            prev
        }
    }
}

/// `(descriptor index, block address, reason)` of every refused `NXSB`
/// among the first `n` descriptor blocks.
pub open spec fn skipped_in(image: Seq<u8>, base: u64, bs: u32, n: int) -> Seq<(u32, u64, Seq<char>)>
    decreases n,
{
    if n <= 0 {
        Seq::empty()
    } else {
        let prev = skipped_in(image, base, bs, n - 1);
        let addr = (base + (n - 1)) as u64;
        let b = block_at(image, addr, bs as usize);
        match descriptor_kind(b) {
            DescriptorKind::WrongType | DescriptorKind::BadChecksum => prev.push(
                ((n - 1) as u32, addr, skip_reason(b)),
            ),
            _ => prev,
        }
    }
}

/// The first of the first `n` descriptor blocks that cannot be read, and
/// how the read fails.
pub open spec fn first_read_failure(image_len: int, base: u64, bs: u32, n: int) -> Option<ScanFailure>
    decreases n,
{
    if n <= 0 {
        None
    } else {
        match first_read_failure(image_len, base, bs, n - 1) {
            Some(f) => Some(f),
            None => read_failure(image_len, (base + (n - 1)) as u64, bs as usize),
        }
    }
}

/// The view of a skipped-descriptor list.
pub open spec fn skipped_view(s: Seq<SkippedDescriptor>) -> Seq<(u32, u64, Seq<char>)> {
    s.map_values(|d: SkippedDescriptor| (d.descriptor_index, d.block_address, d.reason@))
}

/// Block-zero fields that drive the descriptor scan.
pub open spec fn block_zero(image: Seq<u8>) -> Seq<u8> {
    image.subrange(0, le32(image, 0x24))
}

pub open spec fn descriptor_count(image: Seq<u8>) -> u32 {
    le32(block_zero(image), 0x68) as u32
}

pub open spec fn descriptor_base_raw(image: Seq<u8>) -> u64 {
    le64(block_zero(image), 0x70) as u64
}

/// Everything that stops the descriptor scan, in the order it is checked,
/// or `None` when the scan yields a report.
pub open spec fn scan_failure(image: Seq<u8>) -> Option<ScanFailure> {
    let len = image.len() as int;
    let bs = le32(image, 0x24) as u32;
    if len < 4096 {
        Some(ScanFailure::ShortRead { block_address: 0, expected: 4096, actual: len as usize })
    } else if !block_size_allowed(bs) {
        Some(ScanFailure::InvalidBlockZero)
    } else if len < bs {
        Some(ScanFailure::ShortRead { block_address: 0, expected: bs as usize, actual: len as usize })
    } else if !block_zero_valid(block_zero(image)) {
        Some(ScanFailure::InvalidBlockZero)
    } else if descriptor_count(image) == 0 || descriptor_count(image) > MAX_DESCRIPTOR_BLOCKS {
        Some(ScanFailure::UnsupportedDescriptorLayout)
    } else if descriptor_base_raw(image) >= 0x8000_0000_0000_0000 {
        Some(ScanFailure::UnsupportedDescriptorLayout)
    } else if first_read_failure(
        len,
        descriptor_base_raw(image),
        bs,
        descriptor_count(image) as int,
    ) is Some {
        first_read_failure(len, descriptor_base_raw(image), bs, descriptor_count(image) as int)
    } else if candidates_in(image, descriptor_base_raw(image), bs, descriptor_count(image) as int).len() == 0 {
        Some(ScanFailure::NoCheckpointCandidates)
    } else {
        None
    }
}

/// Scans the checkpoint descriptor area of a container image.
///
/// Reads block zero, checks the block size and the container superblock,
/// then classifies each block of the (contiguous) descriptor area. The
/// result lists every valid `NXSB` candidate and every `NXSB`-magic block
/// that was refused; it is an error when no candidate is found.
pub fn scan_reader(image: &[u8]) -> (r: Result<ScanReport, ScanError>)
    ensures
        scan_failure(image@) matches Some(f) ==> (r matches Err(e) && failure_of(e) == f),
        scan_failure(image@) is None ==> (r matches Ok(report) && {
            let bs = le32(image@, 0x24) as u32;
            let n = descriptor_count(image@);
            let base = descriptor_base_raw(image@);
            &&& report.block_size == bs
            &&& report.descriptor_blocks == n
            &&& report.descriptor_base == base
            &&& !report.descriptor_base_non_contiguous
            &&& report.candidates@ == candidates_in(image@, base, bs, n as int)
            &&& skipped_view(report.skipped_descriptors@) == skipped_in(image@, base, bs, n as int)
        }),
{
    let initial = read_block(image, 0, MIN_BLOCK_SIZE as usize)?;
    let block_size = le_u32(initial.as_slice(), 0x24);
    assert(initial@ =~= image@.subrange(0, 4096));
    validate_block_size(block_size)?;

    let block0 = if block_size == MIN_BLOCK_SIZE {
        initial
    } else {
        read_block(image, 0, block_size as usize)?
    };
    assert(block0@ =~= block_zero(image@));

    validate_nxsb_block0(block0.as_slice())?;

    let descriptor_blocks = le_u32(block0.as_slice(), 0x68);
    if descriptor_blocks == 0 {
        return Err(ScanError::UnsupportedDescriptorLayout(owned("descriptor block count is zero")));
    }
    if descriptor_blocks > MAX_DESCRIPTOR_BLOCKS {
        let m = crate::text::msg_num2(
            "descriptor block count ",
            descriptor_blocks as u64,
            " exceeds fail-closed limit ",
            MAX_DESCRIPTOR_BLOCKS as u64,
            "",
        );
        return Err(ScanError::UnsupportedDescriptorLayout(m));
    }

    let base_raw = le_u64(block0.as_slice(), 0x70);
    let descriptor_base_non_contiguous = base_raw >= 0x8000_0000_0000_0000;
    if descriptor_base_non_contiguous {
        return Err(ScanError::UnsupportedDescriptorLayout(owned(
            "non-contiguous checkpoint descriptor areas require checkpoint mapping-tree support",
        )));
    }
    let descriptor_base = base_raw;

    let mut candidates: Vec<NxsbCandidate> = Vec::new();
    let mut skipped_descriptors: Vec<SkippedDescriptor> = Vec::new();
    let mut descriptor_index: u32 = 0;
    while descriptor_index < descriptor_blocks
        invariant
            descriptor_index <= descriptor_blocks,
            descriptor_blocks == descriptor_count(image@),
            descriptor_blocks <= MAX_DESCRIPTOR_BLOCKS,
            descriptor_base == descriptor_base_raw(image@),
            descriptor_base < 0x8000_0000_0000_0000,
            block_size == le32(image@, 0x24),
            block_size_allowed(block_size),
            image@.len() >= block_size,
            block_zero_valid(block_zero(image@)),
            first_read_failure(image@.len() as int, descriptor_base, block_size, descriptor_index as int) is None,
            candidates@ == candidates_in(image@, descriptor_base, block_size, descriptor_index as int),
            skipped_view(skipped_descriptors@) == skipped_in(
                image@,
                descriptor_base,
                block_size,
                descriptor_index as int,
            ),
        decreases descriptor_blocks - descriptor_index,
    {
        let block_address = descriptor_base + descriptor_index as u64;
        let ghost i = descriptor_index as int;
        let block = match read_block(image, block_address, block_size as usize) {
            Ok(b) => b,
            Err(e) => {
                assert(Some(failure_of(e)) == read_failure(image@.len() as int, block_address, block_size as usize));
                assert(first_read_failure(image@.len() as int, descriptor_base, block_size, i + 1)
                    == read_failure(image@.len() as int, block_address, block_size as usize));
                proof {
                    lemma_first_failure_persists(image@.len() as int, descriptor_base, block_size, i + 1, descriptor_blocks as int);
                }
                return Err(e);
            },
        };
        let ghost prev_skipped = skipped_descriptors@;
        match parse_nxsb_candidate(block.as_slice(), descriptor_index, block_address) {
            Ok(Some(candidate)) => candidates.push(candidate),
            Ok(None) => {},
            Err(reason) => skipped_descriptors.push(
                SkippedDescriptor { descriptor_index, block_address, reason },
            ),
        }
        assert(skipped_view(skipped_descriptors@) =~= skipped_in(image@, descriptor_base, block_size, i + 1));
        descriptor_index = descriptor_index + 1;
    }

    if candidates.len() == 0 {
        return Err(ScanError::NoCheckpointCandidates);
    }

    Ok(ScanReport {
        block_size,
        descriptor_blocks,
        descriptor_base,
        descriptor_base_non_contiguous,
        candidates,
        skipped_descriptors,
    })
}

proof fn lemma_first_failure_persists(image_len: int, base: u64, bs: u32, k: int, n: int)
    requires
        0 <= k <= n,
        first_read_failure(image_len, base, bs, k) is Some,
    ensures
        first_read_failure(image_len, base, bs, n) == first_read_failure(image_len, base, bs, k),
    decreases n - k,
{
    if k < n {
        lemma_first_failure_persists(image_len, base, bs, k, n - 1);
    }
}

/// Index of the candidate `highest_candidate` picks: the last one with the
/// largest `xid`.
pub open spec fn is_highest_index(c: Seq<NxsbCandidate>, i: int) -> bool {
    &&& 0 <= i < c.len()
    &&& forall|j: int| 0 <= j < c.len() ==> c[j].xid <= c[i].xid
    &&& forall|j: int| i < j < c.len() ==> c[j].xid < c[i].xid
}

impl ScanReport {
    /// The candidate with the largest `xid` (the last such one when several
    /// tie), or `None` when there are no candidates.
    pub fn highest_candidate(&self) -> (r: Option<&NxsbCandidate>)
        ensures
            self.candidates@.len() == 0 <==> r is None,
            r matches Some(c) ==> exists|i: int| is_highest_index(self.candidates@, i) && *c == self.candidates@[i],
    {
        if self.candidates.len() == 0 {
            return None;
        }
        let mut best: usize = 0;
        let mut i: usize = 1;
        while i < self.candidates.len()
            invariant
                1 <= i <= self.candidates@.len(),
                best < i,
                forall|j: int| 0 <= j < i ==> self.candidates@[j].xid <= self.candidates@[best as int].xid,
                forall|j: int| best < j < i ==> self.candidates@[j].xid < self.candidates@[best as int].xid,
            decreases self.candidates@.len() - i,
        {
            if self.candidates[i].xid >= self.candidates[best].xid {
                best = i;
            }
            i = i + 1;
        }
        assert(is_highest_index(self.candidates@, best as int));
        Some(&self.candidates[best])
    }

    /// The checkpoint-level scan state, carrying `gaps` as validation gaps.
    pub fn to_scan_state(&self, gaps: Vec<String>) -> (s: ScanState)
        ensures
            s.block_size == self.block_size,
            s.descriptor_blocks == self.descriptor_blocks,
            s.descriptor_base == self.descriptor_base,
            s.descriptor_base_non_contiguous == self.descriptor_base_non_contiguous,
            self.candidates@.len() == 0 ==> s.highest_xid == 0,
            self.candidates@.len() > 0 ==> exists|i: int| is_highest_index(self.candidates@, i) && s.highest_xid == self.candidates@[i].xid,
            s.candidate_count == self.candidates@.len(),
            s.validation_gaps@ == gaps@,
    {
        let highest_xid = match self.highest_candidate() {
            Some(c) => c.xid,
            None => 0,
        };
        ScanState {
            block_size: self.block_size,
            descriptor_blocks: self.descriptor_blocks,
            descriptor_base: self.descriptor_base,
            descriptor_base_non_contiguous: self.descriptor_base_non_contiguous,
            highest_xid,
            candidate_count: self.candidates.len(),
            validation_gaps: gaps,
        }
    }
}

} // verus!
