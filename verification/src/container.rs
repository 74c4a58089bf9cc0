//! Container superblock decoding and the checkpoint-map walk.
//!
//! Once the checkpoint scan picks the highest valid `NXSB` candidate, this
//! module decodes the selected superblock, validates the descriptor ring of
//! its checkpoint (the checkpoint-map blocks and the trailing `NXSB`), and
//! reports the container fields the rest of the parser needs: the object
//! map's physical address, the volume superblock ids, and the feature masks
//! that must be allowlisted before any support is claimed.

use vstd::prelude::*;

use crate::block_io::{le32, le64, le_u32, le_u64, read_block};
use crate::object::{
    flags_summary, name_views, object_rejection, spec_header, validate_object_block, ObjectExpectation,
    ObjectHeader, flags_summary_of, ExpectedStorage, OBJECT_TYPE_CHECKPOINT_MAP, OBJECT_TYPE_NX_SUPERBLOCK,
};
use crate::text::{decimal, hex_dump, msg_num, msg_num2, msg_pair, owned, push_decimal, push_hex_dump};
use crate::ScanError;

verus! {

pub const NX_MAX_FILE_SYSTEMS: usize = 100;
pub const FS_OID_ARRAY_OFFSET: usize = 0xb8;

pub const NX_FEATURE_DEFRAG: u64 = 0x1;
pub const NX_FEATURE_LCFD: u64 = 0x2;

pub const NX_INCOMPAT_VERSION1: u64 = 0x1;
pub const NX_INCOMPAT_VERSION2: u64 = 0x2;
pub const NX_INCOMPAT_FUSION: u64 = 0x100;

pub const CHECKPOINT_MAP_LAST: u32 = 0x1;
pub const CHECKPOINT_MAPPING_SIZE: usize = 40;

/// The fields of a container superblock.
#[derive(Debug, Clone)]
pub struct ContainerSummary {
    pub block_address: u64,
    pub xid: u64,
    pub block_size: u32,
    pub block_count: u64,
    pub features_raw: u64,
    pub readonly_compatible_features_raw: u64,
    pub incompatible_features_raw: u64,
    pub features: Vec<&'static str>,
    pub incompatible_features: Vec<&'static str>,
    pub unsupported_incompatible_features: u64,
    pub uuid_hex: String,
    pub next_oid: u64,
    pub next_xid: u64,
    pub xp_desc_blocks: u32,
    pub xp_desc_base: u64,
    pub xp_desc_index: u32,
    pub xp_desc_len: u32,
    pub xp_data_blocks: u32,
    pub xp_data_base: u64,
    pub xp_data_index: u32,
    pub xp_data_len: u32,
    pub spaceman_oid: u64,
    pub omap_oid: u64,
    pub reaper_oid: u64,
    pub max_file_systems: u32,
    pub volume_oids: Vec<u64>,
    pub object_header: ObjectHeader,
    pub object_storage_summary: Vec<&'static str>,
}

/// One `checkpoint_mapping_t`.
#[derive(Debug, Clone, Copy, PartialEq, Eq, Structural)]
pub struct CheckpointMapping {
    pub map_block: u64,
    pub object_type_raw: u32,
    pub object_subtype: u32,
    pub size: u32,
    pub fs_oid: u64,
    pub oid: u64,
    pub paddr: u64,
}

/// One checkpoint-map block of the descriptor ring.
#[derive(Debug, Clone, Copy, PartialEq, Eq, Structural)]
pub struct CheckpointMapBlock {
    pub block_address: u64,
    pub flags: u32,
    pub mapping_count: u32,
    pub last: bool,
    pub object: ObjectHeader,
}

/// What the descriptor-ring walk found.
#[derive(Debug, Clone)]
pub struct CheckpointMapSummary {
    pub map_blocks: Vec<CheckpointMapBlock>,
    pub mappings: Vec<CheckpointMapping>,
    pub trailing_nxsb_block: u64,
    pub last_flag_seen: bool,
    pub validation_notes: Vec<String>,
}

// ---- the superblock -------------------------------------------------------- //

/// An object of `object_type` in any storage class.
pub open spec fn any_storage_of(object_type: u32) -> ObjectExpectation {
    ObjectExpectation { object_type, storage: ExpectedStorage::Any, max_xid: None, require_oid_eq_paddr: false }
}

/// A physical object of `object_type` whose `o_oid` is its address.
pub open spec fn physical_of(object_type: u32) -> ObjectExpectation {
    ObjectExpectation {
        object_type,
        storage: ExpectedStorage::Physical,
        max_xid: None,
        require_oid_eq_paddr: true,
    }
}

/// `nx_max_file_systems`.
pub open spec fn max_file_systems_of(block: Seq<u8>) -> u32 {
    le32(block, 0xb4) as u32
}

/// A superblock is refused when its object header does not validate as an
/// `NXSB` of any storage class, when `nx_max_file_systems` is outside
/// `1..=100`, or when the block cannot hold the `nx_fs_oid` array.
pub open spec fn container_refused(block: Seq<u8>, block_address: u64) -> bool {
    ||| object_rejection(block, block_address, any_storage_of(OBJECT_TYPE_NX_SUPERBLOCK)) is Some
    ||| max_file_systems_of(block) == 0
    ||| max_file_systems_of(block) > NX_MAX_FILE_SYSTEMS
    ||| block.len() < FS_OID_ARRAY_OFFSET + 8 * NX_MAX_FILE_SYSTEMS
}

/// The non-zero entries of the first `n` slots of `nx_fs_oid`.
pub open spec fn volume_oids_upto(block: Seq<u8>, n: int) -> Seq<u64>
    decreases n,
{
    if n <= 0 {
        Seq::empty()
    } else {
        let prev = volume_oids_upto(block, n - 1);
        let oid = le64(block, FS_OID_ARRAY_OFFSET + 8 * (n - 1)) as u64;
        if oid != 0 {
            prev.push(oid)
        } else {
            prev
        }
    }
}

/// Names of the known `nx_features` bits that are set.
pub open spec fn feature_names(raw: u64) -> Seq<Seq<char>> {
    (if raw & NX_FEATURE_DEFRAG != 0 {
        seq!["defrag"@]
    } else {
        Seq::empty()
    }) + (if raw & NX_FEATURE_LCFD != 0 {
        seq!["lcfd"@]
    } else {
        Seq::empty()
    })
}

/// Names of the known `nx_incompatible_features` bits that are set.
pub open spec fn incompat_names(raw: u64) -> Seq<Seq<char>> {
    (if raw & NX_INCOMPAT_VERSION1 != 0 {
        seq!["version1"@]
    } else {
        Seq::empty()
    }) + (if raw & NX_INCOMPAT_VERSION2 != 0 {
        seq!["version2"@]
    } else {
        Seq::empty()
    }) + (if raw & NX_INCOMPAT_FUSION != 0 {
        seq!["fusion"@]
    } else {
        Seq::empty()
    })
}

/// The canonical text of a 16-byte UUID: lowercase hex in groups of 4, 2,
/// 2, 2 and 6 bytes joined by `-`; empty when fewer than 16 bytes are
/// given.
pub open spec fn uuid_text(b: Seq<u8>) -> Seq<char> {
    if b.len() < 16 {
        Seq::empty()
    } else {
        hex_dump(b.subrange(0, 4)) + "-"@ + hex_dump(b.subrange(4, 6)) + "-"@ + hex_dump(b.subrange(6, 8)) + "-"@
            + hex_dump(b.subrange(8, 10)) + "-"@ + hex_dump(b.subrange(10, 16))
    }
}

/// Formats a UUID as in [`uuid_text`].
pub fn format_uuid(bytes: &[u8]) -> (r: String)
    ensures
        r@ == uuid_text(bytes@),
{
    if bytes.len() < 16 {
        return String::new();
    }
    let mut out = String::new();
    push_hex_dump(&mut out, crate::fs_record_body::slice_range(bytes, 0, 4));
    out.append("-");
    push_hex_dump(&mut out, crate::fs_record_body::slice_range(bytes, 4, 6));
    out.append("-");
    push_hex_dump(&mut out, crate::fs_record_body::slice_range(bytes, 6, 8));
    out.append("-");
    push_hex_dump(&mut out, crate::fs_record_body::slice_range(bytes, 8, 10));
    out.append("-");
    push_hex_dump(&mut out, crate::fs_record_body::slice_range(bytes, 10, 16));
    out
}

/// `c` holds the fields of the superblock `block` read at
/// `block_address`.
pub open spec fn container_matches(c: ContainerSummary, block: Seq<u8>, block_address: u64) -> bool {
    let h = spec_header(block, block_address);
    let incompat = le64(block, 0x40) as u64;
    let features = le64(block, 0x30) as u64;
    &&& c.block_address == block_address
    &&& c.xid == h.xid
    &&& c.block_size == le32(block, 0x24) as u32
    &&& c.block_count == le64(block, 0x28) as u64
    &&& c.features_raw == features
    &&& c.readonly_compatible_features_raw == le64(block, 0x38) as u64
    &&& c.incompatible_features_raw == incompat
    &&& name_views(c.features@) == feature_names(features)
    &&& name_views(c.incompatible_features@) == incompat_names(incompat)
    &&& c.unsupported_incompatible_features == incompat & !(NX_INCOMPAT_VERSION1 | NX_INCOMPAT_VERSION2
        | NX_INCOMPAT_FUSION)
    &&& c.uuid_hex@ == uuid_text(block.subrange(0x48, 0x58))
    &&& c.next_oid == le64(block, 0x58) as u64
    &&& c.next_xid == le64(block, 0x60) as u64
    &&& c.xp_desc_blocks == le32(block, 0x68) as u32
    &&& c.xp_data_blocks == le32(block, 0x6c) as u32
    &&& c.xp_desc_base == (le64(block, 0x70) as u64) & !(1u64 << 63u64)
    &&& c.xp_data_base == (le64(block, 0x78) as u64) & !(1u64 << 63u64)
    &&& c.xp_desc_index == le32(block, 0x88) as u32
    &&& c.xp_desc_len == le32(block, 0x8c) as u32
    &&& c.xp_data_index == le32(block, 0x90) as u32
    &&& c.xp_data_len == le32(block, 0x94) as u32
    &&& c.spaceman_oid == le64(block, 0x98) as u64
    &&& c.omap_oid == le64(block, 0xa0) as u64
    &&& c.reaper_oid == le64(block, 0xa8) as u64
    &&& c.max_file_systems == max_file_systems_of(block)
    &&& c.volume_oids@ == volume_oids_upto(block, NX_MAX_FILE_SYSTEMS as int)
    &&& c.object_header == h
    &&& name_views(c.object_storage_summary@) == flags_summary_of(h)
}

/// Decodes the container superblock in `block`, read at `block_address`.
pub fn decode_container_summary(block: &[u8], block_address: u64) -> (r: Result<ContainerSummary, ScanError>)
    requires
        block@.len() >= FS_OID_ARRAY_OFFSET,
    ensures
        match r {
            Ok(c) => !container_refused(block@, block_address) && container_matches(c, block@, block_address),
            Err(e) => container_refused(block@, block_address) && e is InvalidObject,
        },
{
    let header = validate_object_block(block, block_address, ObjectExpectation::any_storage(OBJECT_TYPE_NX_SUPERBLOCK))?;
    let max_file_systems = le_u32(block, 0xb4);
    if max_file_systems == 0 || max_file_systems as usize > NX_MAX_FILE_SYSTEMS {
        return Err(ScanError::InvalidObject(msg_num(
            "container reports nx_max_file_systems=",
            max_file_systems as u64,
            ", expected 1..=100",
        )));
    }
    if block.len() < FS_OID_ARRAY_OFFSET + 8 * NX_MAX_FILE_SYSTEMS {
        return Err(ScanError::InvalidObject(owned("NXSB block shorter than nx_fs_oid array")));
    }
    let mut volume_oids: Vec<u64> = Vec::new();
    let mut index: usize = 0;
    while index < NX_MAX_FILE_SYSTEMS
        invariant
            index <= NX_MAX_FILE_SYSTEMS,
            block@.len() >= FS_OID_ARRAY_OFFSET + 8 * NX_MAX_FILE_SYSTEMS,
            volume_oids@ == volume_oids_upto(block@, index as int),
        decreases NX_MAX_FILE_SYSTEMS - index,
    {
        let oid = le_u64(block, FS_OID_ARRAY_OFFSET + 8 * index);
        if oid != 0 {
            volume_oids.push(oid);
        }
        index = index + 1;
    }
    let features_raw = le_u64(block, 0x30);
    let incompat_raw = le_u64(block, 0x40);
    let mut features: Vec<&'static str> = Vec::new();
    if features_raw & NX_FEATURE_DEFRAG != 0 {
        features.push("defrag");
    }
    if features_raw & NX_FEATURE_LCFD != 0 {
        features.push("lcfd");
    }
    proof {
        assert(name_views(features@) =~= feature_names(features_raw));
    }
    let mut incompatible: Vec<&'static str> = Vec::new();
    if incompat_raw & NX_INCOMPAT_VERSION1 != 0 {
        incompatible.push("version1");
    }
    if incompat_raw & NX_INCOMPAT_VERSION2 != 0 {
        incompatible.push("version2");
    }
    if incompat_raw & NX_INCOMPAT_FUSION != 0 {
        incompatible.push("fusion");
    }
    proof {
        assert(name_views(incompatible@) =~= incompat_names(incompat_raw));
    }
    let uuid_hex = format_uuid(crate::fs_record_body::slice_range(block, 0x48, 0x58));
    let object_storage_summary = flags_summary(&header);
    Ok(ContainerSummary {
        block_address,
        xid: header.xid,
        block_size: le_u32(block, 0x24),
        block_count: le_u64(block, 0x28),
        features_raw,
        readonly_compatible_features_raw: le_u64(block, 0x38),
        incompatible_features_raw: incompat_raw,
        features,
        incompatible_features: incompatible,
        unsupported_incompatible_features: incompat_raw & !(NX_INCOMPAT_VERSION1 | NX_INCOMPAT_VERSION2
            | NX_INCOMPAT_FUSION),
        uuid_hex,
        next_oid: le_u64(block, 0x58),
        next_xid: le_u64(block, 0x60),
        xp_desc_blocks: le_u32(block, 0x68),
        xp_desc_base: le_u64(block, 0x70) & !(1u64 << 63u64),
        xp_desc_index: le_u32(block, 0x88),
        xp_desc_len: le_u32(block, 0x8c),
        xp_data_blocks: le_u32(block, 0x6c),
        xp_data_base: le_u64(block, 0x78) & !(1u64 << 63u64),
        xp_data_index: le_u32(block, 0x90),
        xp_data_len: le_u32(block, 0x94),
        spaceman_oid: le_u64(block, 0x98),
        omap_oid: le_u64(block, 0xa0),
        reaper_oid: le_u64(block, 0xa8),
        max_file_systems,
        volume_oids,
        object_header: header,
        object_storage_summary,
    })
}

// ---- the descriptor ring ----------------------------------------------------- //

/// What the ring walk has gathered so far.
pub struct RingWalk {
    pub map_blocks: Seq<CheckpointMapBlock>,
    pub mappings: Seq<CheckpointMapping>,
    pub last_flag_seen: bool,
    pub trailing: u64,
}

/// The position of ring block `offset` in the descriptor area:
/// `(xp_desc_index + offset) mod xp_desc_blocks`.
pub open spec fn ring_position(c: ContainerSummary, offset: u32) -> u32 {
    (c.xp_desc_index.wrapping_add(offset) % c.xp_desc_blocks) as u32
}

/// Ring block `offset` of the checkpoint: its position past
/// `xp_desc_base`, or `None` when the address overflows `u64`.
pub open spec fn ring_address(c: ContainerSummary, offset: u32) -> Option<u64> {
    let position = ring_position(c, offset);
    if c.xp_desc_base + position > u64::MAX {
        None
    } else {
        Some((c.xp_desc_base + position) as u64)
    }
}

/// Every ring block lies inside the descriptor area, and the `i`-th one
/// read sits `(xp_desc_index + i) mod xp_desc_blocks` blocks past its base
/// (the sum taken in `u32`, wrapping): a ring that starts near the end of
/// the area wraps round to its start.
pub proof fn lemma_ring_address_in_area(c: ContainerSummary, offset: u32)
    requires
        c.xp_desc_blocks > 0,
    ensures
        ring_address(c, offset) matches Some(a) ==> c.xp_desc_base <= a < c.xp_desc_base + c.xp_desc_blocks,
        ring_address(c, offset) matches Some(a) ==> c.xp_desc_index + offset < 0x1_0000_0000 ==> a == c.xp_desc_base
            + (c.xp_desc_index + offset) % (c.xp_desc_blocks as int),
        ring_address(c, offset) is None <==> c.xp_desc_base + (c.xp_desc_index + offset) % 0x1_0000_0000 % (
        c.xp_desc_blocks as int) > u64::MAX,
{
    let x = c.xp_desc_index;
    let w = x.wrapping_add(offset);
    assert(w == (x + offset) % 0x1_0000_0000);
}

/// The refusal of a ring block whose address overflows `u64`.
pub open spec fn ring_overflow_text(c: ContainerSummary, offset: u32) -> Seq<char> {
    "xp_desc_base "@ + decimal(c.xp_desc_base as nat) + " + position "@ + decimal(ring_position(c, offset) as nat)
        + " overflows u64"@
}

/// The refusal of a trailing block that is not the selected superblock.
pub open spec fn trailing_block_text(addr: u64, selected: u64) -> Seq<char> {
    "trailing checkpoint block "@ + decimal(addr as nat) + " does not match selected NXSB at "@ + decimal(
        selected as nat,
    )
}

/// The refusal of a trailing superblock at another xid.
pub open spec fn trailing_xid_text(xid: u64, expected: u64) -> Seq<char> {
    "trailing NXSB xid "@ + decimal(xid as nat) + " does not match selected xid "@ + decimal(expected as nat)
}

/// The refusal of a checkpoint map at another xid.
pub open spec fn map_xid_text(addr: u64, xid: u64, expected: u64) -> Seq<char> {
    "checkpoint map at "@ + decimal(addr as nat) + " has xid "@ + decimal(xid as nat) + " (expected "@ + decimal(
        expected as nat,
    ) + ")"@
}

/// The refusal of a checkpoint map whose mappings run past its block.
pub open spec fn map_past_end_text(addr: u64, count: u32) -> Seq<char> {
    "checkpoint map at "@ + decimal(addr as nat) + " reports "@ + decimal(count as nat) + " entries past block end"@
}

/// Block `addr` lies wholly inside the image.
pub open spec fn readable(image: Seq<u8>, addr: u64, bs: usize) -> bool {
    addr * bs <= u64::MAX && addr * bs + bs <= image.len()
}

/// The mappings `i..` of a checkpoint-map block.
pub open spec fn block_mappings(b: Seq<u8>, addr: u64, count: int) -> Seq<CheckpointMapping>
    decreases count,
{
    if count <= 0 {
        Seq::empty()
    } else {
        let off = 0x28 + CHECKPOINT_MAPPING_SIZE * (count - 1);
        block_mappings(b, addr, count - 1).push(
            CheckpointMapping {
                map_block: addr,
                object_type_raw: le32(b, off) as u32,
                object_subtype: le32(b, off + 4) as u32,
                size: le32(b, off + 8) as u32,
                fs_oid: le64(b, off + 0x10) as u64,
                oid: le64(b, off + 0x18) as u64,
                paddr: le64(b, off + 0x20) as u64,
            },
        )
    }
}

/// The walk state after ring block `offset`: the last block must be the
/// selected `NXSB` at the container's xid; every other block must be a
/// physical checkpoint map at that xid whose mappings fit in the block.
/// A failed ring step carries the text of its `InvalidObject` refusal
/// where the contract fixes it.
#[verifier::opaque]
pub open spec fn ring_step(
    image: Seq<u8>,
    bs: u32,
    c: ContainerSummary,
    selected: u64,
    offset: u32,
    w: RingWalk,
) -> Result<RingWalk, Option<Seq<char>>> {
    match ring_address(c, offset) {
        None => Err(Some(ring_overflow_text(c, offset))),
        Some(addr) => if !readable(image, addr, bs as usize) {
            Err(None)
        } else {
            let b = image.subrange(addr * bs, addr * bs + bs);
            let h = spec_header(b, addr);
            if offset == c.xp_desc_len - 1 {
                if object_rejection(b, addr, any_storage_of(OBJECT_TYPE_NX_SUPERBLOCK)) is Some {
                    Err(None)
                } else if addr != selected {
                    Err(Some(trailing_block_text(addr, selected)))
                } else if h.xid != c.xid {
                    Err(Some(trailing_xid_text(h.xid, c.xid)))
                } else {
                    Ok(RingWalk { trailing: addr, ..w })
                }
            } else {
                let flags = le32(b, 0x20) as u32;
                let count = le32(b, 0x24) as u32;
                if object_rejection(b, addr, physical_of(OBJECT_TYPE_CHECKPOINT_MAP)) is Some {
                    Err(None)
                } else if h.xid != c.xid {
                    Err(Some(map_xid_text(addr, h.xid, c.xid)))
                } else if 0x28 + CHECKPOINT_MAPPING_SIZE * count > b.len() {
                    Err(Some(map_past_end_text(addr, count)))
                } else {
                    let last = flags & CHECKPOINT_MAP_LAST != 0;
                    Ok(
                        RingWalk {
                            map_blocks: w.map_blocks.push(
                                CheckpointMapBlock { block_address: addr, flags, mapping_count: count, last, object: h },
                            ),
                            mappings: w.mappings + block_mappings(b, addr, count as int),
                            last_flag_seen: w.last_flag_seen || last,
                            trailing: w.trailing,
                        },
                    )
                }
            }
        },
    }
}

/// The walk state after ring blocks `offset..xp_desc_len`, or the first
/// refusal.
pub open spec fn ring_walk(
    image: Seq<u8>,
    bs: u32,
    c: ContainerSummary,
    selected: u64,
    offset: u32,
    w: RingWalk,
) -> Result<RingWalk, Option<Seq<char>>>
    decreases c.xp_desc_len - offset,
{
    if offset >= c.xp_desc_len {
        Ok(w)
    } else {
        match ring_step(image, bs, c, selected, offset, w) {
            Err(e) => Err(e),
            Ok(w2) => ring_walk(image, bs, c, selected, (offset + 1) as u32, w2),
        }
    }
}

pub open spec fn empty_ring_walk() -> RingWalk {
    RingWalk { map_blocks: Seq::empty(), mappings: Seq::empty(), last_flag_seen: false, trailing: 0 }
}

/// The note recorded when no map block carries `CHECKPOINT_MAP_LAST`.
pub open spec fn missing_last_note() -> Seq<char> {
    "no checkpoint-map block was flagged CHECKPOINT_MAP_LAST"@
}

/// `s` reports the finished walk `w`.
pub open spec fn ring_summary_matches(s: CheckpointMapSummary, w: RingWalk) -> bool {
    &&& s.map_blocks@ == w.map_blocks
    &&& s.mappings@ == w.mappings
    &&& s.trailing_nxsb_block == w.trailing
    &&& s.last_flag_seen == w.last_flag_seen
    &&& crate::fs_record_body::texts(s.validation_notes@) == if !w.last_flag_seen && w.map_blocks.len() > 0 {
        seq![missing_last_note()]
    } else {
        Seq::empty()
    }
}

/// Appends the `count` mappings of checkpoint-map block `b`.
fn push_block_mappings(b: &[u8], block_address: u64, count: u32, mappings: &mut Vec<CheckpointMapping>)
    requires
        0x28 + CHECKPOINT_MAPPING_SIZE * count <= b@.len(),
    ensures
        final(mappings)@ == old(mappings)@ + block_mappings(b@, block_address, count as int),
{
    let ghost before = mappings@;
    let mut index: u32 = 0;
    assert(before + block_mappings(b@, block_address, 0) =~= before);
    while index < count
        invariant
            index <= count,
            0x28 + CHECKPOINT_MAPPING_SIZE * count <= b@.len(),
            mappings@ == before + block_mappings(b@, block_address, index as int),
        decreases count - index,
    {
        let ghost blen: int = b@.len() as int;
        assert(0x28 + 40 * (index as int) + 40 <= blen) by (nonlinear_arith)
            requires
                index < count,
                0x28 + 40 * (count as int) <= blen,
        ;
        let idx = index as usize;
        let exec_len = b.len();
        assert(0x28 + 40 * idx + 40 <= exec_len);
        let entry_off = 0x28 + 40 * idx;
        mappings.push(
            CheckpointMapping {
                map_block: block_address,
                object_type_raw: le_u32(b, entry_off),
                object_subtype: le_u32(b, entry_off + 4),
                size: le_u32(b, entry_off + 8),
                fs_oid: le_u64(b, entry_off + 0x10),
                oid: le_u64(b, entry_off + 0x18),
                paddr: le_u64(b, entry_off + 0x20),
            },
        );
        index = index + 1;
        assert(mappings@ =~= before + block_mappings(b@, block_address, index as int));
    }
}

/// Validates ring block `offset` and records what it holds.
#[verifier::rlimit(40)]
fn visit_ring_block(
    image: &[u8],
    block_size: u32,
    container: &ContainerSummary,
    selected_block_address: u64,
    offset: u32,
    map_blocks: &mut Vec<CheckpointMapBlock>,
    mappings: &mut Vec<CheckpointMapping>,
    last_flag_seen: &mut bool,
    trailing_nxsb_block: &mut u64,
) -> (r: Result<(), ScanError>)
    requires
        block_size >= 0x28,
        container.xp_desc_blocks > 0,
        offset < container.xp_desc_len,
    ensures
        match ring_step(
            image@,
            block_size,
            *container,
            selected_block_address,
            offset,
            RingWalk {
                map_blocks: old(map_blocks)@,
                mappings: old(mappings)@,
                last_flag_seen: *old(last_flag_seen),
                trailing: *old(trailing_nxsb_block),
            },
        ) {
            Ok(w) => r is Ok && w == (RingWalk {
                map_blocks: final(map_blocks)@,
                mappings: final(mappings)@,
                last_flag_seen: *final(last_flag_seen),
                trailing: *final(trailing_nxsb_block),
            }),
            Err(Some(t)) => r matches Err(ScanError::InvalidObject(m)) && m@ == t,
            Err(None) => r is Err,
        },
{
    reveal(ring_step);
    let position = container.xp_desc_index.wrapping_add(offset) % container.xp_desc_blocks;
    assert(position == ring_position(*container, offset));
    let block_address = match container.xp_desc_base.checked_add(position as u64) {
        Some(a) => a,
        None => {
            return Err(ScanError::InvalidObject(msg_num2(
                "xp_desc_base ",
                container.xp_desc_base,
                " + position ",
                position as u64,
                " overflows u64",
            )));
        },
    };
    let block = read_block(image, block_address, block_size as usize)?;
    let b = block.as_slice();
    if offset == container.xp_desc_len - 1 {
        let header = validate_object_block(b, block_address, ObjectExpectation::any_storage(OBJECT_TYPE_NX_SUPERBLOCK))?;
        if block_address != selected_block_address {
            return Err(ScanError::InvalidObject(msg_pair(
                "trailing checkpoint block ",
                block_address,
                " does not match selected NXSB at ",
                selected_block_address,
            )));
        }
        if header.xid != container.xid {
            return Err(ScanError::InvalidObject(msg_pair(
                "trailing NXSB xid ",
                header.xid,
                " does not match selected xid ",
                container.xid,
            )));
        }
        *trailing_nxsb_block = block_address;
        return Ok(());
    }
    let map_header = validate_object_block(b, block_address, ObjectExpectation::physical(OBJECT_TYPE_CHECKPOINT_MAP))?;
    if map_header.xid != container.xid {
        let mut m = msg_num2("checkpoint map at ", block_address, " has xid ", map_header.xid, " (expected ");
        push_decimal(&mut m, container.xid);
        m.append(")");
        return Err(ScanError::InvalidObject(m));
    }
    let flags = le_u32(b, 0x20);
    let count = le_u32(b, 0x24);
    let last = flags & CHECKPOINT_MAP_LAST != 0;
    if count as usize > (b.len() - 0x28) / CHECKPOINT_MAPPING_SIZE {
        return Err(ScanError::InvalidObject(msg_num2(
            "checkpoint map at ",
            block_address,
            " reports ",
            count as u64,
            " entries past block end",
        )));
    }
    let ghost blen: int = b@.len() as int;
    assert(0x28 + 40 * (count as int) <= blen) by (nonlinear_arith)
        requires
            count as int <= (blen - 0x28) / 40,
            blen >= 0x28,
    ;
    push_block_mappings(b, block_address, count, mappings);
    map_blocks.push(CheckpointMapBlock { block_address, flags, mapping_count: count, last, object: map_header });
    if last {
        *last_flag_seen = true;
    }
    Ok(())
}

pub open spec fn empty_area_text() -> Seq<char> {
    "selected NXSB has empty checkpoint descriptor area"@
}

/// The refusal of a ring longer than its descriptor area.
pub open spec fn ring_too_long_text(len: u32, blocks: u32) -> Seq<char> {
    "checkpoint descriptor length "@ + decimal(len as nat) + " exceeds descriptor area size "@ + decimal(blocks as nat)
}

pub open spec fn no_trailing_text() -> Seq<char> {
    "checkpoint descriptor ring did not include a trailing NXSB"@
}

/// Walks the descriptor ring of the selected checkpoint: every block but
/// the last must validate as a checkpoint map at the container's xid, and
/// the last must be the selected `NXSB` at `selected_block_address`.
pub fn walk_checkpoint_maps(
    image: &[u8],
    block_size: u32,
    container: &ContainerSummary,
    selected_block_address: u64,
) -> (r: Result<CheckpointMapSummary, ScanError>)
    requires
        block_size >= 0x28,
    ensures
        container.xp_desc_blocks == 0 || container.xp_desc_len == 0 ==> (r matches Err(ScanError::InvalidObject(m))
            && m@ == empty_area_text()),
        container.xp_desc_blocks != 0 && container.xp_desc_len != 0 && container.xp_desc_len
            > container.xp_desc_blocks ==> (r matches Err(ScanError::InvalidObject(m)) && m@ == ring_too_long_text(
            container.xp_desc_len,
            container.xp_desc_blocks,
        )),
        !(container.xp_desc_blocks == 0 || container.xp_desc_len == 0 || container.xp_desc_len
            > container.xp_desc_blocks) ==> match ring_walk(
            image@,
            block_size,
            *container,
            selected_block_address,
            0,
            empty_ring_walk(),
        ) {
            Ok(w) => if w.trailing == 0 {
                r matches Err(ScanError::InvalidObject(m)) && m@ == no_trailing_text()
            } else {
                r matches Ok(s) && ring_summary_matches(s, w)
            },
            Err(Some(t)) => r matches Err(ScanError::InvalidObject(m)) && m@ == t,
            Err(None) => r is Err,
        },
{
    if container.xp_desc_blocks == 0 || container.xp_desc_len == 0 {
        let m = owned("selected NXSB has empty checkpoint descriptor area");
        proof {
            reveal_strlit("selected NXSB has empty checkpoint descriptor area");
        }
        return Err(ScanError::InvalidObject(m));
    }
    if container.xp_desc_len > container.xp_desc_blocks {
        return Err(ScanError::InvalidObject(msg_pair(
            "checkpoint descriptor length ",
            container.xp_desc_len as u64,
            " exceeds descriptor area size ",
            container.xp_desc_blocks as u64,
        )));
    }
    let ghost w0 = empty_ring_walk();
    let ghost target = ring_walk(image@, block_size, *container, selected_block_address, 0, w0);
    let mut map_blocks: Vec<CheckpointMapBlock> = Vec::new();
    let mut mappings: Vec<CheckpointMapping> = Vec::new();
    let mut last_flag_seen = false;
    let mut trailing_nxsb_block: u64 = 0;
    let mut offset: u32 = 0;
    while offset < container.xp_desc_len
        invariant
            block_size >= 0x28,
            w0 == empty_ring_walk(),
            offset <= container.xp_desc_len,
            container.xp_desc_blocks > 0,
            container.xp_desc_len <= container.xp_desc_blocks,
            target == ring_walk(image@, block_size, *container, selected_block_address, 0, w0),
            target == ring_walk(
                image@,
                block_size,
                *container,
                selected_block_address,
                offset,
                RingWalk { map_blocks: map_blocks@, mappings: mappings@, last_flag_seen, trailing: trailing_nxsb_block },
            ),
        decreases container.xp_desc_len - offset,
    {
        let ghost w = RingWalk { map_blocks: map_blocks@, mappings: mappings@, last_flag_seen, trailing: trailing_nxsb_block };
        let step = visit_ring_block(
            image,
            block_size,
            container,
            selected_block_address,
            offset,
            &mut map_blocks,
            &mut mappings,
            &mut last_flag_seen,
            &mut trailing_nxsb_block,
        );
        if let Err(e) = step {
            assert(ring_walk(image@, block_size, *container, selected_block_address, offset, w) == ring_step(
                image@,
                block_size,
                *container,
                selected_block_address,
                offset,
                w,
            ));
            return Err(e);
        }
        offset = offset + 1;
    }
    let mut validation_notes: Vec<String> = Vec::new();
    if !last_flag_seen && map_blocks.len() > 0 {
        validation_notes.push(owned("no checkpoint-map block was flagged CHECKPOINT_MAP_LAST"));
    }
    assert(crate::fs_record_body::texts(validation_notes@) =~= if !last_flag_seen && map_blocks@.len() > 0 {
        seq![missing_last_note()]
    } else {
        Seq::empty()
    });
    if trailing_nxsb_block == 0 {
        let m = owned("checkpoint descriptor ring did not include a trailing NXSB");
        proof {
            reveal_strlit("checkpoint descriptor ring did not include a trailing NXSB");
        }
        return Err(ScanError::InvalidObject(m));
    }
    Ok(CheckpointMapSummary { map_blocks, mappings, trailing_nxsb_block, last_flag_seen, validation_notes })
}

} // verus!
