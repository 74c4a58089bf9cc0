//! APFS object map (OMAP) reader.
//!
//! The resolver key is `(omap, oid, max_xid)`: a lookup returns the mapping
//! with the largest `(oid, xid)` at or below `(oid, max_xid)` when its oid
//! matches. Encrypted, no-header and unknown value flags are hard stops;
//! deleted mappings read as absent. A diagnostic walk summarises what the
//! map carries without claiming any mapping is in scope.

use vstd::prelude::*;

use crate::block_io::{le32, le64, le_u32, le_u64, read_block};
use crate::btree::{
    entry_key, entry_value, node_block, node_expectation, node_parse_fails, read_btree_node,
    shape_entry, shape_of, BtreeNode, NodeShape,
};
use crate::object::{
    object_rejection, validate_object_block, ExpectedStorage, ObjectExpectation, OBJECT_TYPE_OMAP,
};
use crate::text::{decimal, msg_num, owned, push_decimal, push_hex_prefixed_width};
use crate::ScanError;

verus! {

/// `omap_key_t` size.
pub const OMAP_KEY_SIZE: usize = 16;
/// `omap_val_t` size.
pub const OMAP_VAL_SIZE: usize = 16;
/// Internal-node values are physical block addresses.
pub const OMAP_INTERNAL_VAL_SIZE: usize = 8;

pub const OMAP_VAL_DELETED: u32 = 0x0000_0001;
pub const OMAP_VAL_SAVED: u32 = 0x0000_0002;
pub const OMAP_VAL_ENCRYPTED: u32 = 0x0000_0004;
pub const OMAP_VAL_NOHEADER: u32 = 0x0000_0008;
pub const OMAP_VAL_CRYPTO_GENERATION: u32 = 0x0000_0010;
/// Value-flag bits the resolver knows how to interpret.
pub const OMAP_VAL_KNOWN_BITS: u32 = 0x0000_001f;

pub const OMAP_MANUALLY_MANAGED: u32 = 0x0000_0001;
pub const OMAP_PHYS_ENCRYPTING: u32 = 0x0000_0002;
pub const OMAP_PHYS_DECRYPTING: u32 = 0x0000_0004;
pub const OMAP_PHYS_KEYROLLING: u32 = 0x0000_0008;
pub const OMAP_PHYS_CRYPTO_GENERATION_FLAG: u32 = 0x0000_0010;
/// The only `om_flags` bit the resolver accepts.
pub const OMAP_PHYS_ALLOWED_BITS: u32 = 0x0000_0001;

/// `omap_phys_t` fields.
#[derive(Debug, Clone, Copy, PartialEq, Eq, Structural)]
pub struct OmapPhysSummary {
    pub block_address: u64,
    pub flags: u32,
    pub snapshot_count: u32,
    pub tree_type_raw: u32,
    pub snapshot_tree_type_raw: u32,
    pub tree_oid: u64,
    pub snapshot_tree_oid: u64,
    pub most_recent_snap: u64,
    pub pending_revert_min: u64,
    pub pending_revert_max: u64,
}

/// One resolved mapping.
#[derive(Debug, Clone, Copy, PartialEq, Eq, Structural)]
pub struct OmapValue {
    pub oid: u64,
    pub xid: u64,
    pub paddr: u64,
    pub flags: u32,
    pub size: u32,
}

/// One mapping sampled by the diagnostic walk.
#[derive(Debug, Clone, Copy, PartialEq, Eq, Structural)]
pub struct OmapDumpEntry {
    pub oid: u64,
    pub xid: u64,
    pub paddr: u64,
    pub flags: u32,
    pub size: u32,
}

/// What the diagnostic walk reports.
#[derive(Debug, Clone)]
pub struct OmapSummary {
    pub phys: OmapPhysSummary,
    pub leaf_node_count: u32,
    pub index_node_count: u32,
    pub mapping_count: u32,
    pub max_observed_xid: u64,
    pub flagged_values: Vec<String>,
    pub sample_mappings: Vec<OmapDumpEntry>,
}

/// An opened object map.
#[derive(Debug, Clone, Copy)]
pub struct OmapResolver {
    pub phys: OmapPhysSummary,
    pub tree_root_paddr: u64,
}

/// Whether `Ok`/`Err` of `r` agree with `s`, and the `Ok` values are equal.
pub open spec fn agrees<T>(r: Result<T, ScanError>, s: Result<T, ()>) -> bool {
    match s {
        Ok(v) => r == Ok::<T, ScanError>(v),
        Err(_) => r is Err,
    }
}

// ---- flags ------------------------------------------------------------- //

/// The value-flag hard stop, if any (deleted values are handled apart).
pub open spec fn value_flag_reason(flags: u32) -> Option<Seq<char>> {
    if flags & OMAP_VAL_ENCRYPTED != 0 {
        Some("OMAP_VAL_ENCRYPTED"@)
    } else if flags & OMAP_VAL_NOHEADER != 0 {
        Some("OMAP_VAL_NOHEADER"@)
    } else if flags & OMAP_VAL_CRYPTO_GENERATION != 0 {
        Some("OMAP_VAL_CRYPTO_GENERATION"@)
    } else if flags & !OMAP_VAL_KNOWN_BITS != 0 {
        Some("unknown OMAP value flag bits"@)
    } else {
        None
    }
}

/// A human-readable reason if `flags` carries an `ov_flags` bit the
/// resolver must hard-stop on.
pub fn value_flag_hard_stop_reason(flags: u32) -> (r: Option<&'static str>)
    ensures
        match (r, value_flag_reason(flags)) {
            (Some(a), Some(b)) => a@ == b,
            (None, None) => true,
            _ => false,
        },
{
    if flags & OMAP_VAL_ENCRYPTED != 0 {
        return Some("OMAP_VAL_ENCRYPTED");
    }
    if flags & OMAP_VAL_NOHEADER != 0 {
        return Some("OMAP_VAL_NOHEADER");
    }
    if flags & OMAP_VAL_CRYPTO_GENERATION != 0 {
        return Some("OMAP_VAL_CRYPTO_GENERATION");
    }
    if flags & !OMAP_VAL_KNOWN_BITS != 0 {
        return Some("unknown OMAP value flag bits");
    }
    None
}

/// The `om_flags` hard stop, if any.
pub open spec fn phys_flag_reason(flags: u32) -> Option<Seq<char>> {
    if flags & OMAP_PHYS_ENCRYPTING != 0 {
        Some("OMAP_ENCRYPTING"@)
    } else if flags & OMAP_PHYS_DECRYPTING != 0 {
        Some("OMAP_DECRYPTING"@)
    } else if flags & OMAP_PHYS_KEYROLLING != 0 {
        Some("OMAP_KEYROLLING"@)
    } else if flags & OMAP_PHYS_CRYPTO_GENERATION_FLAG != 0 {
        Some("OMAP_CRYPTO_GENERATION_FLAG"@)
    } else if flags & !OMAP_PHYS_ALLOWED_BITS != 0 {
        Some("unknown OMAP phys flag bits"@)
    } else {
        None
    }
}

/// A human-readable reason if `flags` carries an `om_flags` bit the
/// resolver must hard-stop on at open time.
pub fn phys_flag_hard_stop_reason(flags: u32) -> (r: Option<&'static str>)
    ensures
        match (r, phys_flag_reason(flags)) {
            (Some(a), Some(b)) => a@ == b,
            (None, None) => true,
            _ => false,
        },
{
    if flags & OMAP_PHYS_ENCRYPTING != 0 {
        return Some("OMAP_ENCRYPTING");
    }
    if flags & OMAP_PHYS_DECRYPTING != 0 {
        return Some("OMAP_DECRYPTING");
    }
    if flags & OMAP_PHYS_KEYROLLING != 0 {
        return Some("OMAP_KEYROLLING");
    }
    if flags & OMAP_PHYS_CRYPTO_GENERATION_FLAG != 0 {
        return Some("OMAP_CRYPTO_GENERATION_FLAG");
    }
    if flags & !OMAP_PHYS_ALLOWED_BITS != 0 {
        return Some("unknown OMAP phys flag bits");
    }
    None
}

/// Object maps are always physical trees.
pub fn omap_storage_class() -> (s: ExpectedStorage)
    ensures
        s == ExpectedStorage::Physical,
{
    ExpectedStorage::Physical
}

// ---- open -------------------------------------------------------------- //

/// The `omap_phys_t` fields of block `b` at `paddr`.
pub open spec fn spec_phys(b: Seq<u8>, paddr: u64) -> OmapPhysSummary {
    OmapPhysSummary {
        block_address: paddr,
        flags: le32(b, 0x20) as u32,
        snapshot_count: le32(b, 0x24) as u32,
        tree_type_raw: le32(b, 0x28) as u32,
        snapshot_tree_type_raw: le32(b, 0x2c) as u32,
        tree_oid: le64(b, 0x30) as u64,
        snapshot_tree_oid: le64(b, 0x38) as u64,
        most_recent_snap: le64(b, 0x40) as u64,
        pending_revert_min: le64(b, 0x48) as u64,
        pending_revert_max: le64(b, 0x50) as u64,
    }
}

/// The resolver `open` returns, or `Err` when the block does not read,
/// does not validate as a physical OMAP, or carries a refused `om_flags`.
pub open spec fn spec_open(image: Seq<u8>, bs: usize, paddr: u64) -> Result<OmapResolver, ()> {
    match node_block(image, bs, paddr, ObjectExpectation {
        object_type: OBJECT_TYPE_OMAP,
        storage: ExpectedStorage::Physical,
        max_xid: None,
        require_oid_eq_paddr: true,
    }) {
        None => Err(()),
        Some(b) => if phys_flag_reason(le32(b, 0x20) as u32) is Some {
            Err(())
        } else {
            Ok(OmapResolver { phys: spec_phys(b, paddr), tree_root_paddr: le64(b, 0x30) as u64 })
        },
    }
}

// ---- lookup ------------------------------------------------------------- //

/// Lexicographic `(a_oid, a_xid) <= (b_oid, b_xid)`.
pub open spec fn key_le(a_oid: u64, a_xid: u64, b_oid: u64, b_xid: u64) -> bool {
    a_oid < b_oid || (a_oid == b_oid && a_xid <= b_xid)
}

/// The `(oid, xid)` key of entry `i`, or `None` when it does not decode.
pub open spec fn omap_key(sh: NodeShape, b: Seq<u8>, i: u32) -> Option<(u64, u64)> {
    match shape_entry(sh, b, i) {
        None => None,
        Some(e) => match entry_key(b, e, OMAP_KEY_SIZE) {
            None => None,
            Some(k) => Some((le64(k, 0) as u64, le64(k, 8) as u64)),
        },
    }
}

/// Internal-node child choice: the last of the leading entries whose key
/// is at or below the target (0 when none is), scanning from entry `i`.
pub open spec fn internal_scan(
    sh: NodeShape,
    b: Seq<u8>,
    oid: u64,
    max_xid: u64,
    i: int,
    chosen: u32,
) -> Result<u32, ()>
    decreases sh.nkeys - i,
{
    if i < 0 || i >= sh.nkeys {
        Ok(chosen)
    } else {
        match omap_key(sh, b, i as u32) {
            None => Err(()),
            Some((eo, ex)) => if key_le(eo, ex, oid, max_xid) {
                internal_scan(sh, b, oid, max_xid, i + 1, i as u32)
            } else {
                Ok(chosen)
            },
        }
    }
}

/// The mapping an entry holds, or `None` when it does not decode.
pub open spec fn omap_mapping(sh: NodeShape, b: Seq<u8>, i: u32) -> Option<OmapValue> {
    match shape_entry(sh, b, i) {
        None => None,
        Some(e) => match (entry_key(b, e, OMAP_KEY_SIZE), entry_value(b, e, OMAP_VAL_SIZE)) {
            (Some(k), Some(v)) => Some(
                OmapValue {
                    oid: le64(k, 0) as u64,
                    xid: le64(k, 8) as u64,
                    paddr: le64(v, 8) as u64,
                    flags: le32(v, 0) as u32,
                    size: le32(v, 4) as u32,
                },
            ),
            _ => None,
        },
    }
}

/// Leaf scan: the last leading mapping whose key is at or below the
/// target, scanning from entry `i`.
pub open spec fn leaf_scan(
    sh: NodeShape,
    b: Seq<u8>,
    oid: u64,
    max_xid: u64,
    i: int,
    best: Option<OmapValue>,
) -> Result<Option<OmapValue>, ()>
    decreases sh.nkeys - i,
{
    if i < 0 || i >= sh.nkeys {
        Ok(best)
    } else {
        match omap_key(sh, b, i as u32) {
            None => Err(()),
            Some((eo, ex)) => if !key_le(eo, ex, oid, max_xid) {
                Ok(best)
            } else {
                match omap_mapping(sh, b, i as u32) {
                    None => Err(()),
                    Some(m) => leaf_scan(sh, b, oid, max_xid, i + 1, Some(m)),
                }
            },
        }
    }
}

/// The leaf-level answer: the lower-bound mapping when its oid matches and
/// it is not deleted; an error when it carries a hard-stop flag.
pub open spec fn leaf_select(sh: NodeShape, b: Seq<u8>, oid: u64, max_xid: u64) -> Result<
    Option<OmapValue>,
    (),
> {
    match leaf_scan(sh, b, oid, max_xid, 0, None) {
        Err(()) => Err(()),
        Ok(None) => Ok(None),
        Ok(Some(m)) => if m.oid != oid {
            Ok(None)
        } else if m.flags & OMAP_VAL_DELETED != 0 {
            Ok(None)
        } else if value_flag_reason(m.flags) is Some {
            Err(())
        } else {
            Ok(Some(m))
        },
    }
}

// ---- the lower-bound law of a leaf ------------------------------------------------ //

/// `(a.oid, a.xid)` is strictly below `(b.oid, b.xid)`.
pub open spec fn mapping_lt(a: OmapValue, b: OmapValue) -> bool {
    a.oid < b.oid || (a.oid == b.oid && a.xid < b.xid)
}

/// Every entry of the leaf decodes, and the keys strictly increase: the
/// order APFS keeps object-map leaves in.
pub open spec fn leaf_entries_sorted(sh: NodeShape, b: Seq<u8>) -> bool {
    &&& forall|i: u32| i < sh.nkeys ==> #[trigger] omap_mapping(sh, b, i) is Some
    &&& forall|i: u32, j: u32|
        i < j < sh.nkeys ==> mapping_lt(
            #[trigger] omap_mapping(sh, b, i)->0,
            #[trigger] omap_mapping(sh, b, j)->0,
        )
}

/// The mapping is at or below the target key `(oid, max_xid)`.
pub open spec fn at_or_below(m: OmapValue, oid: u64, max_xid: u64) -> bool {
    key_le(m.oid, m.xid, oid, max_xid)
}

/// The scan from `i` on, with every entry before `i` at or below the
/// target, ends on the last entry at or below the target.
proof fn lemma_leaf_scan_last_at_or_below(
    sh: NodeShape,
    b: Seq<u8>,
    oid: u64,
    max_xid: u64,
    i: int,
    best: Option<OmapValue>,
)
    requires
        leaf_entries_sorted(sh, b),
        0 <= i <= sh.nkeys,
        forall|j: u32| j < i ==> at_or_below(#[trigger] omap_mapping(sh, b, j)->0, oid, max_xid),
        i == 0 ==> best is None,
        i > 0 ==> best == omap_mapping(sh, b, (i - 1) as u32),
    ensures
        match leaf_scan(sh, b, oid, max_xid, i, best) {
            Ok(Some(m)) => exists|k: u32|
                k < sh.nkeys && #[trigger] omap_mapping(sh, b, k) == Some(m) && at_or_below(m, oid, max_xid)
                    && forall|j: u32|
                    j < sh.nkeys && at_or_below(#[trigger] omap_mapping(sh, b, j)->0, oid, max_xid) ==> j <= k,
            Ok(None) => forall|j: u32| j < sh.nkeys ==> !at_or_below(#[trigger] omap_mapping(sh, b, j)->0, oid, max_xid),
            Err(_) => false,
        },
    decreases sh.nkeys - i,
{
    if i >= sh.nkeys {
        if i > 0 {
            let k = (i - 1) as u32;
            assert(omap_mapping(sh, b, k) is Some);
            assert(at_or_below(omap_mapping(sh, b, k)->0, oid, max_xid));
        }
    } else {
        let iu = i as u32;
        assert(omap_mapping(sh, b, iu) is Some);
        let m = omap_mapping(sh, b, iu)->0;
        assert(omap_key(sh, b, iu) == Some((m.oid, m.xid)));
        if !at_or_below(m, oid, max_xid) {
            assert forall|j: u32| j < sh.nkeys && j >= i implies !at_or_below(#[trigger] omap_mapping(sh, b, j)->0, oid, max_xid) by {
                if j > iu {
                    assert(mapping_lt(omap_mapping(sh, b, iu)->0, omap_mapping(sh, b, j)->0));
                }
            }
            if i > 0 {
                let k = (i - 1) as u32;
                assert(omap_mapping(sh, b, k) is Some);
                assert(at_or_below(omap_mapping(sh, b, k)->0, oid, max_xid));
            }
        } else {
            lemma_leaf_scan_last_at_or_below(sh, b, oid, max_xid, i + 1, Some(m));
        }
    }
}

/// Object-map lookups answer with the largest transaction at or below
/// the requested one: in a leaf whose keys are sorted, the mapping a leaf
/// answers with belongs to `oid`, is at or below `max_xid`, and no mapping
/// of `oid` at or below `max_xid` is newer. When the leaf answers nothing,
/// either no mapping of `oid` is at or below `max_xid`, or the newest such
/// mapping is deleted; when it fails, the newest such mapping carries a
/// hard-stop flag.
pub proof fn lemma_leaf_select_is_newest_at_or_below(sh: NodeShape, b: Seq<u8>, oid: u64, max_xid: u64)
    requires
        leaf_entries_sorted(sh, b),
    ensures
        match leaf_select(sh, b, oid, max_xid) {
            Ok(Some(m)) => m.oid == oid && m.xid <= max_xid && forall|j: u32|
                j < sh.nkeys && (#[trigger] omap_mapping(sh, b, j)->0).oid == oid && omap_mapping(sh, b, j)->0.xid
                    <= max_xid ==> omap_mapping(sh, b, j)->0.xid <= m.xid,
            Ok(None) => (forall|j: u32|
                j < sh.nkeys ==> !((#[trigger] omap_mapping(sh, b, j)->0).oid == oid && omap_mapping(sh, b, j)->0.xid
                    <= max_xid)) || exists|k: u32|
                k < sh.nkeys && newest_for(sh, b, oid, max_xid, #[trigger] omap_mapping(sh, b, k)->0) && omap_mapping(
                    sh,
                    b,
                    k,
                )->0.flags & OMAP_VAL_DELETED != 0,
            Err(_) => exists|k: u32|
                k < sh.nkeys && newest_for(sh, b, oid, max_xid, #[trigger] omap_mapping(sh, b, k)->0)
                    && value_flag_reason(omap_mapping(sh, b, k)->0.flags) is Some,
        },
{
    lemma_leaf_scan_last_at_or_below(sh, b, oid, max_xid, 0, None);
    match leaf_scan(sh, b, oid, max_xid, 0, None) {
        Ok(Some(m)) => {
            let k = choose|k: u32|
                k < sh.nkeys && #[trigger] omap_mapping(sh, b, k) == Some(m) && at_or_below(m, oid, max_xid)
                    && forall|j: u32|
                    j < sh.nkeys && at_or_below(#[trigger] omap_mapping(sh, b, j)->0, oid, max_xid) ==> j <= k;
            assert forall|j: u32|
                j < sh.nkeys && (#[trigger] omap_mapping(sh, b, j)->0).oid == oid && omap_mapping(sh, b, j)->0.xid
                    <= max_xid implies key_le(omap_mapping(sh, b, j)->0.oid, omap_mapping(sh, b, j)->0.xid, m.oid, m.xid) by {
                assert(at_or_below(omap_mapping(sh, b, j)->0, oid, max_xid));
                if j < k {
                    assert(mapping_lt(omap_mapping(sh, b, j)->0, omap_mapping(sh, b, k)->0));
                }
            }
            if m.oid == oid {
                assert(newest_for(sh, b, oid, max_xid, omap_mapping(sh, b, k)->0));
            }
        },
        _ => {},
    }
}

/// `(a.0, a.1)` is strictly below `(b.0, b.1)`.
pub open spec fn key_lt(a: (u64, u64), b: (u64, u64)) -> bool {
    a.0 < b.0 || (a.0 == b.0 && a.1 < b.1)
}

/// The key pair is at or below the target `(oid, max_xid)`.
pub open spec fn pair_at_or_below(k: (u64, u64), oid: u64, max_xid: u64) -> bool {
    key_le(k.0, k.1, oid, max_xid)
}

/// Every key of the node decodes, and the keys strictly increase.
pub open spec fn node_keys_sorted(sh: NodeShape, b: Seq<u8>) -> bool {
    &&& forall|i: u32| i < sh.nkeys ==> #[trigger] omap_key(sh, b, i) is Some
    &&& forall|i: u32, j: u32|
        i < j < sh.nkeys ==> key_lt(#[trigger] omap_key(sh, b, i)->0, #[trigger] omap_key(sh, b, j)->0)
}

proof fn lemma_internal_scan_last_at_or_below(
    sh: NodeShape,
    b: Seq<u8>,
    oid: u64,
    max_xid: u64,
    i: int,
    chosen: u32,
)
    requires
        node_keys_sorted(sh, b),
        0 <= i <= sh.nkeys,
        forall|j: u32| j < i ==> pair_at_or_below(#[trigger] omap_key(sh, b, j)->0, oid, max_xid),
        i == 0 ==> chosen == 0,
        i > 0 ==> chosen == i - 1,
    ensures
        match internal_scan(sh, b, oid, max_xid, i, chosen) {
            Ok(c) => (c == 0 || c < sh.nkeys) && (forall|j: u32|
                j < sh.nkeys && pair_at_or_below(#[trigger] omap_key(sh, b, j)->0, oid, max_xid)
                    ==> j <= c) && (c < sh.nkeys ==> (pair_at_or_below(omap_key(sh, b, c)->0, oid, max_xid)
                || forall|j: u32|
                j < sh.nkeys ==> !pair_at_or_below(#[trigger] omap_key(sh, b, j)->0, oid, max_xid))),
            Err(_) => false,
        },
    decreases sh.nkeys - i,
{
    if i < sh.nkeys {
        let iu = i as u32;
        assert(omap_key(sh, b, iu) is Some);
        let key = omap_key(sh, b, iu)->0;
        if !pair_at_or_below(key, oid, max_xid) {
            assert forall|j: u32| j < sh.nkeys && j >= i implies !pair_at_or_below(#[trigger] omap_key(sh, b, j)->0, oid, max_xid) by {
                if j > iu {
                    assert(key_lt(omap_key(sh, b, iu)->0, omap_key(sh, b, j)->0));
                }
            }
            if i > 0 {
                assert(omap_key(sh, b, chosen) is Some);
            }
        } else {
            lemma_internal_scan_last_at_or_below(sh, b, oid, max_xid, i + 1, iu);
        }
    } else if i > 0 {
        assert(omap_key(sh, b, chosen) is Some);
    }
}

/// An index node sends a lookup down its last child whose key is at or
/// below the target `(oid, max_xid)`, or down its first child when no key
/// is: in a node whose keys are sorted, the chosen child is in range, no
/// later child's key is at or below the target, and the chosen child's key
/// is at or below it unless none is.
pub proof fn lemma_internal_child_is_last_at_or_below(sh: NodeShape, b: Seq<u8>, oid: u64, max_xid: u64)
    requires
        node_keys_sorted(sh, b),
        sh.nkeys > 0,
    ensures
        match internal_scan(sh, b, oid, max_xid, 0, 0) {
            Ok(c) => c < sh.nkeys && (forall|j: u32|
                j < sh.nkeys && pair_at_or_below(#[trigger] omap_key(sh, b, j)->0, oid, max_xid)
                    ==> j <= c) && (pair_at_or_below(omap_key(sh, b, c)->0, oid, max_xid)
                || forall|j: u32|
                j < sh.nkeys ==> !pair_at_or_below(#[trigger] omap_key(sh, b, j)->0, oid, max_xid)),
            Err(_) => false,
        },
{
    lemma_internal_scan_last_at_or_below(sh, b, oid, max_xid, 0, 0);
}

/// `m` is a mapping of `oid` at or below `max_xid`, and no mapping of the
/// leaf for `oid` at or below `max_xid` is newer.
pub open spec fn newest_for(sh: NodeShape, b: Seq<u8>, oid: u64, max_xid: u64, m: OmapValue) -> bool {
    &&& m.oid == oid
    &&& m.xid <= max_xid
    &&& forall|j: u32|
        j < sh.nkeys && (#[trigger] omap_mapping(sh, b, j)->0).oid == oid && omap_mapping(sh, b, j)->0.xid
            <= max_xid ==> omap_mapping(sh, b, j)->0.xid <= m.xid
}

/// One step of a lookup at node `paddr`: fail, stop with an answer, or
/// descend to a child block.
pub enum LookupStep {
    Fail,
    Done(Option<OmapValue>),
    Descend(u64),
}

pub open spec fn lookup_step(
    image: Seq<u8>,
    bs: usize,
    paddr: u64,
    is_root: bool,
    oid: u64,
    max_xid: u64,
) -> LookupStep {
    match node_block(image, bs, paddr, node_expectation(is_root, ExpectedStorage::Physical, None)) {
        None => LookupStep::Fail,
        Some(b) => if node_parse_fails(b, bs as int) {
            LookupStep::Fail
        } else {
            let sh = shape_of(b, bs);
            if sh.nkeys == 0 {
                LookupStep::Done(None)
            } else if !sh.fixed_kv_size {
                LookupStep::Fail
            } else if sh.is_leaf {
                match leaf_select(sh, b, oid, max_xid) {
                    Err(()) => LookupStep::Fail,
                    Ok(v) => LookupStep::Done(v),
                }
            } else {
                match internal_scan(sh, b, oid, max_xid, 0, 0) {
                    Err(()) => LookupStep::Fail,
                    Ok(idx) => match shape_entry(sh, b, idx) {
                        None => LookupStep::Fail,
                        Some(e) => match entry_value(b, e, OMAP_INTERNAL_VAL_SIZE) {
                            None => LookupStep::Fail,
                            Some(v) => LookupStep::Descend(le64(v, 0) as u64),
                        },
                    },
                }
            }
        },
    }
}

/// The lookup starting at `paddr` with at most `fuel` node visits; `None`
/// when the visits run out (the walk is then on a cycle of nodes).
pub open spec fn lookup_from(
    image: Seq<u8>,
    bs: usize,
    paddr: u64,
    is_root: bool,
    oid: u64,
    max_xid: u64,
    fuel: nat,
) -> Option<Result<Option<OmapValue>, ()>>
    decreases fuel,
{
    if fuel == 0 {
        None
    } else {
        match lookup_step(image, bs, paddr, is_root, oid, max_xid) {
            LookupStep::Fail => Some(Err(())),
            LookupStep::Done(v) => Some(Ok(v)),
            LookupStep::Descend(child) => lookup_from(
                image,
                bs,
                child,
                false,
                oid,
                max_xid,
                (fuel - 1) as nat,
            ),
        }
    }
}

/// Node visits a walk may make before it must be revisiting a node: one
/// more than the number of whole blocks in the image.
pub open spec fn visit_budget(image_len: int, bs: usize) -> nat {
    (image_len / (bs as int) + 1) as nat
}

/// The internal-node child to descend into: the last of the leading
/// entries whose `(oid, xid)` key is at or below `(oid, max_xid)`, or entry
/// 0 when none is.
pub fn select_internal_lower_bound(node: &BtreeNode, oid: u64, max_xid: u64) -> (r: Result<
    u32,
    ScanError,
>)
    requires
        node.wf(),
        node.fixed_kv_size,
    ensures
        node.nkeys == 0 ==> r is Err,
        node.nkeys > 0 ==> agrees(r, internal_scan(node.shape(), node.block@, oid, max_xid, 0, 0)),
{
    if node.nkeys == 0 {
        return Err(ScanError::InvalidObject(owned("internal OMAP node has zero keys")));
    }
    let mut chosen: u32 = 0;
    let mut index: u32 = 0;
    while index < node.nkeys
        invariant
            node.wf(),
            node.fixed_kv_size,
            index <= node.nkeys,
            internal_scan(node.shape(), node.block@, oid, max_xid, 0, 0) == internal_scan(
                node.shape(),
                node.block@,
                oid,
                max_xid,
                index as int,
                chosen,
            ),
        decreases node.nkeys - index,
    {
        let entry = node.entry(index)?;
        let key = node.key_bytes(&entry, OMAP_KEY_SIZE)?;
        let entry_oid = le_u64(key, 0);
        let entry_xid = le_u64(key, 8);
        if entry_oid < oid || (entry_oid == oid && entry_xid <= max_xid) {
            chosen = index;
        } else {
            return Ok(chosen);
        }
        index = index + 1;
    }
    Ok(chosen)
}

/// The leaf-level lower-bound mapping for `(oid, max_xid)`: `None` when
/// there is none, when its oid differs, or when it is deleted; an error
/// when it carries a hard-stop flag.
pub fn select_leaf_lower_bound(node: &BtreeNode, oid: u64, max_xid: u64) -> (r: Result<
    Option<OmapValue>,
    ScanError,
>)
    requires
        node.wf(),
        node.fixed_kv_size,
    ensures
        agrees(r, leaf_select(node.shape(), node.block@, oid, max_xid)),
{
    let mut best: Option<OmapValue> = None;
    let mut index: u32 = 0;
    let mut done = false;
    while index < node.nkeys && !done
        invariant
            node.wf(),
            node.fixed_kv_size,
            index <= node.nkeys,
            !done ==> leaf_scan(node.shape(), node.block@, oid, max_xid, 0, None) == leaf_scan(
                node.shape(),
                node.block@,
                oid,
                max_xid,
                index as int,
                best,
            ),
            done ==> leaf_scan(node.shape(), node.block@, oid, max_xid, 0, None) == Ok::<
                Option<OmapValue>,
                (),
            >(best),
        decreases node.nkeys - index, if done { 0int } else { 1int },
    {
        let entry = node.entry(index)?;
        let key = node.key_bytes(&entry, OMAP_KEY_SIZE)?;
        let entry_oid = le_u64(key, 0);
        let entry_xid = le_u64(key, 8);
        if !(entry_oid < oid || (entry_oid == oid && entry_xid <= max_xid)) {
            done = true;
        } else {
            let value = node.value_bytes(&entry, OMAP_VAL_SIZE)?;
            best = Some(OmapValue {
                oid: entry_oid,
                xid: entry_xid,
                paddr: le_u64(value, 8),
                flags: le_u32(value, 0),
                size: le_u32(value, 4),
            });
            index = index + 1;
        }
    }
    let m = match best {
        None => {
            return Ok(None);
        },
        Some(m) => m,
    };
    if m.oid != oid {
        return Ok(None);
    }
    if m.flags & OMAP_VAL_DELETED != 0 {
        return Ok(None);
    }
    if let Some(reason) = value_flag_hard_stop_reason(m.flags) {
        let mut msg = msg_num("OMAP value for oid ", m.oid, " has unsupported flags ");
        push_hex_prefixed_width(&mut msg, m.flags as u64, 10);
        msg.append(": ");
        msg.append(reason);
        return Err(ScanError::InvalidObject(msg));
    }
    Ok(Some(m))
}

impl OmapResolver {
    /// Opens the object map whose `omap_phys_t` sits at `omap_paddr`.
    pub fn open(image: &[u8], block_size: usize, omap_paddr: u64) -> (r: Result<Self, ScanError>)
        requires
            block_size >= 0x58,
        ensures
            agrees(r, spec_open(image@, block_size, omap_paddr)),
    {
        let block = read_block(image, omap_paddr, block_size)?;
        let b = block.as_slice();
        let _header = validate_object_block(b, omap_paddr, ObjectExpectation::physical(OBJECT_TYPE_OMAP))?;
        let flags = le_u32(b, 0x20);
        if let Some(reason) = phys_flag_hard_stop_reason(flags) {
            let mut msg = msg_num("OMAP at paddr ", omap_paddr, " has unsupported om_flags ");
            push_hex_prefixed_width(&mut msg, flags as u64, 10);
            msg.append(": ");
            msg.append(reason);
            return Err(ScanError::InvalidObject(msg));
        }
        let tree_oid = le_u64(b, 0x30);
        Ok(OmapResolver {
            phys: OmapPhysSummary {
                block_address: omap_paddr,
                flags,
                snapshot_count: le_u32(b, 0x24),
                tree_type_raw: le_u32(b, 0x28),
                snapshot_tree_type_raw: le_u32(b, 0x2c),
                tree_oid,
                snapshot_tree_oid: le_u64(b, 0x38),
                most_recent_snap: le_u64(b, 0x40),
                pending_revert_min: le_u64(b, 0x48),
                pending_revert_max: le_u64(b, 0x50),
            },
            tree_root_paddr: tree_oid,
        })
    }

    /// The spec answer of a lookup of `(oid, max_xid)` in this map.
    pub open spec fn lookup_spec(&self, image: Seq<u8>, bs: usize, oid: u64, max_xid: u64) -> Option<
        Result<Option<OmapValue>, ()>,
    > {
        lookup_from(image, bs, self.tree_root_paddr, true, oid, max_xid, visit_budget(image.len() as int, bs))
    }

    /// `(oid, max_xid)` lower-bound lookup.
    ///
    /// Walks from the root down the child chosen by
    /// [`select_internal_lower_bound`] and answers with
    /// [`select_leaf_lower_bound`] at the leaf; an empty node answers
    /// `None`. A walk that visits more nodes than the image has blocks is on
    /// a cycle and is refused with `InvalidObject`.
    pub fn lookup(&self, image: &[u8], block_size: usize, oid: u64, max_xid: u64) -> (r: Result<
        Option<OmapValue>,
        ScanError,
    >)
        requires
            block_size >= 0x2c,
        ensures
            self.lookup_spec(image@, block_size, oid, max_xid) matches Some(s) ==> agrees(r, s),
            self.lookup_spec(image@, block_size, oid, max_xid) is None ==> r matches Err(
                ScanError::InvalidObject(_),
            ),
    {
        let mut current_paddr = self.tree_root_paddr;
        let mut is_root = true;
        let image_len = image.len();
        assert((image_len / block_size) * 2 <= image_len) by (nonlinear_arith)
            requires
                block_size >= 0x2c,
        ;
        let mut fuel: usize = image_len / block_size + 1;
        assert(fuel == visit_budget(image@.len() as int, block_size));
        while fuel > 0
            invariant
                block_size >= 0x2c,
                self.lookup_spec(image@, block_size, oid, max_xid) == lookup_from(
                    image@,
                    block_size,
                    current_paddr,
                    is_root,
                    oid,
                    max_xid,
                    fuel as nat,
                ),
            decreases fuel,
        {
            let (block, _header) = read_btree_node(
                image,
                block_size,
                current_paddr,
                is_root,
                ExpectedStorage::Physical,
                None,
            )?;
            let node = BtreeNode::parse(block.as_slice(), block_size)?;
            if node.nkeys == 0 {
                return Ok(None);
            }
            if !node.fixed_kv_size {
                return Err(ScanError::InvalidObject(owned("OMAP B-tree node is not fixed-kv-size")));
            }
            if node.is_leaf {
                return select_leaf_lower_bound(&node, oid, max_xid);
            }
            let child_index = select_internal_lower_bound(&node, oid, max_xid)?;
            let entry = node.entry(child_index)?;
            let value = node.value_bytes(&entry, OMAP_INTERNAL_VAL_SIZE)?;
            current_paddr = le_u64(value, 0);
            is_root = false;
            fuel = fuel - 1;
        }
        Err(ScanError::InvalidObject(msg_num(
            "OMAP lookup revisits a node at paddr ",
            current_paddr,
            "; the tree has a cycle",
        )))
    }
}

// ---- diagnostic walk --------------------------------------------------- //

/// Running totals of the diagnostic walk. A flag counter is `None` until
/// the flag is first seen.
pub struct Tally {
    pub leaf_nodes: u32,
    pub index_nodes: u32,
    pub mappings: u32,
    pub max_seen_xid: u64,
    pub deleted: Option<u32>,
    pub saved: Option<u32>,
    pub encrypted: Option<u32>,
    pub noheader: Option<u32>,
    pub crypto_generation: Option<u32>,
    pub samples: Seq<OmapDumpEntry>,
}

/// A flag counter after one more occurrence.
pub open spec fn bump(c: Option<u32>) -> Option<u32> {
    match c {
        None => Some(1u32),
        Some(n) => Some(n.wrapping_add(1)),
    }
}

/// The totals after classifying one mapping's flags.
pub open spec fn tally_flags(t: Tally, flags: u32) -> Tally {
    Tally {
        deleted: if flags & OMAP_VAL_DELETED != 0 { bump(t.deleted) } else { t.deleted },
        saved: if flags & OMAP_VAL_SAVED != 0 { bump(t.saved) } else { t.saved },
        encrypted: if flags & OMAP_VAL_ENCRYPTED != 0 { bump(t.encrypted) } else { t.encrypted },
        noheader: if flags & OMAP_VAL_NOHEADER != 0 { bump(t.noheader) } else { t.noheader },
        crypto_generation: if flags & OMAP_VAL_CRYPTO_GENERATION != 0 {
            bump(t.crypto_generation)
        } else {
            t.crypto_generation
        },
        ..t
    }
}

/// The totals after one leaf mapping: its flags are classified; when its
/// xid is within the scan state it is counted, may raise the observed
/// maximum, and is sampled while fewer than `limit` samples are held.
pub open spec fn tally_mapping(t: Tally, m: OmapValue, max_xid: u64, limit: usize) -> Tally {
    let t1 = tally_flags(t, m.flags);
    if m.xid <= max_xid {
        Tally {
            mappings: t1.mappings.wrapping_add(1),
            max_seen_xid: if m.xid > t1.max_seen_xid { m.xid } else { t1.max_seen_xid },
            samples: if t1.samples.len() < limit {
                t1.samples.push(
                    OmapDumpEntry { oid: m.oid, xid: m.xid, paddr: m.paddr, flags: m.flags, size: m.size },
                )
            } else {
                t1.samples
            },
            ..t1
        }
    } else {
        t1
    }
}

/// Totals after the leaf entries from `i` on.
pub open spec fn leaf_tally(
    sh: NodeShape,
    b: Seq<u8>,
    i: int,
    t: Tally,
    max_xid: u64,
    limit: usize,
) -> Result<Tally, ()>
    decreases sh.nkeys - i,
{
    if i < 0 || i >= sh.nkeys {
        Ok(t)
    } else {
        match omap_mapping(sh, b, i as u32) {
            None => Err(()),
            Some(m) => leaf_tally(sh, b, i + 1, tally_mapping(t, m, max_xid, limit), max_xid, limit),
        }
    }
}

/// Totals after walking the subtree at `paddr`, allowing `depth` more
/// levels (a deeper path must revisit a block and is refused).
pub open spec fn walk_tally(
    image: Seq<u8>,
    bs: usize,
    paddr: u64,
    is_root: bool,
    t: Tally,
    max_xid: u64,
    limit: usize,
    depth: nat,
) -> Result<Tally, ()>
    decreases depth, 0x1_0000_0002int,
{
    if depth == 0 {
        Err(())
    } else {
        match node_block(image, bs, paddr, node_expectation(is_root, ExpectedStorage::Physical, None)) {
            None => Err(()),
            Some(b) => if node_parse_fails(b, bs as int) {
                Err(())
            } else {
                let sh = shape_of(b, bs);
                if !sh.fixed_kv_size {
                    Err(())
                } else if sh.is_leaf {
                    leaf_tally(sh, b, 0, Tally { leaf_nodes: t.leaf_nodes.wrapping_add(1), ..t }, max_xid, limit)
                } else {
                    children_tally(
                        image,
                        bs,
                        sh,
                        b,
                        0,
                        Tally { index_nodes: t.index_nodes.wrapping_add(1), ..t },
                        max_xid,
                        limit,
                        depth,
                    )
                }
            },
        }
    }
}

/// Totals after walking the children of an internal node from entry `i`
/// on, each with one level less.
pub open spec fn children_tally(
    image: Seq<u8>,
    bs: usize,
    sh: NodeShape,
    b: Seq<u8>,
    i: int,
    t: Tally,
    max_xid: u64,
    limit: usize,
    depth: nat,
) -> Result<Tally, ()>
    decreases depth, sh.nkeys - i,
{
    if i < 0 || i >= sh.nkeys || depth == 0 {
        Ok(t)
    } else {
        match shape_entry(sh, b, i as u32) {
            None => Err(()),
            Some(e) => match entry_value(b, e, OMAP_INTERNAL_VAL_SIZE) {
                None => Err(()),
                Some(v) => match walk_tally(
                    image,
                    bs,
                    le64(v, 0) as u64,
                    false,
                    t,
                    max_xid,
                    limit,
                    (depth - 1) as nat,
                ) {
                    Err(()) => Err(()),
                    Ok(t2) => children_tally(image, bs, sh, b, i + 1, t2, max_xid, limit, depth),
                },
            },
        }
    }
}

/// The empty tally.
pub open spec fn empty_tally() -> Tally {
    Tally {
        leaf_nodes: 0,
        index_nodes: 0,
        mappings: 0,
        max_seen_xid: 0,
        deleted: None,
        saved: None,
        encrypted: None,
        noheader: None,
        crypto_generation: None,
        samples: Seq::empty(),
    }
}

/// `name: count` for a counter that was seen.
pub open spec fn flag_line(name: Seq<char>, c: Option<u32>) -> Seq<Seq<char>> {
    match c {
        None => Seq::empty(),
        Some(n) => seq![name + ": "@ + decimal(n as nat)],
    }
}

/// The `name: count` lines of the seen flags, sorted by name.
pub open spec fn flagged_lines(t: Tally) -> Seq<Seq<char>> {
    flag_line("crypto_generation"@, t.crypto_generation) + flag_line("deleted"@, t.deleted)
        + flag_line("encrypted"@, t.encrypted) + flag_line("noheader"@, t.noheader) + flag_line(
        "saved"@,
        t.saved,
    )
}

struct SummarizeState {
    leaf_node_count: u32,
    index_node_count: u32,
    mapping_count: u32,
    max_observed_xid: u64,
    deleted: Option<u32>,
    saved: Option<u32>,
    encrypted: Option<u32>,
    noheader: Option<u32>,
    crypto_generation: Option<u32>,
    samples: Vec<OmapDumpEntry>,
}

impl SummarizeState {
    spec fn tally(&self) -> Tally {
        Tally {
            leaf_nodes: self.leaf_node_count,
            index_nodes: self.index_node_count,
            mappings: self.mapping_count,
            max_seen_xid: self.max_observed_xid,
            deleted: self.deleted,
            saved: self.saved,
            encrypted: self.encrypted,
            noheader: self.noheader,
            crypto_generation: self.crypto_generation,
            samples: self.samples@,
        }
    }
}

fn bump_counter(c: Option<u32>) -> (r: Option<u32>)
    ensures
        r == bump(c),
{
    match c {
        None => Some(1),
        Some(n) => Some(n.wrapping_add(1)),
    }
}

/// Counts one mapping's flags.
fn classify_flags(flags: u32, state: &mut SummarizeState)
    ensures
        final(state).tally() == tally_flags(old(state).tally(), flags),
{
    if flags & OMAP_VAL_DELETED != 0 {
        state.deleted = bump_counter(state.deleted);
    }
    if flags & OMAP_VAL_SAVED != 0 {
        state.saved = bump_counter(state.saved);
    }
    if flags & OMAP_VAL_ENCRYPTED != 0 {
        state.encrypted = bump_counter(state.encrypted);
    }
    if flags & OMAP_VAL_NOHEADER != 0 {
        state.noheader = bump_counter(state.noheader);
    }
    if flags & OMAP_VAL_CRYPTO_GENERATION != 0 {
        state.crypto_generation = bump_counter(state.crypto_generation);
    }
}

/// The child block address an internal entry holds, or `None` when it does
/// not decode.
pub open spec fn omap_child(sh: NodeShape, b: Seq<u8>, i: u32) -> Option<u64> {
    match shape_entry(sh, b, i) {
        None => None,
        Some(e) => match entry_value(b, e, OMAP_INTERNAL_VAL_SIZE) {
            None => None,
            Some(v) => Some(le64(v, 0) as u64),
        },
    }
}

proof fn lemma_leaf_step(sh: NodeShape, b: Seq<u8>, i: int, t: Tally, max_xid: u64, limit: usize)
    requires
        0 <= i < sh.nkeys,
    ensures
        match omap_mapping(sh, b, i as u32) {
            Some(m) => leaf_tally(sh, b, i, t, max_xid, limit) == leaf_tally(
                sh,
                b,
                i + 1,
                tally_mapping(t, m, max_xid, limit),
                max_xid,
                limit,
            ),
            None => leaf_tally(sh, b, i, t, max_xid, limit) is Err,
        },
{
        }

proof fn lemma_children_step(
    image: Seq<u8>,
    bs: usize,
    sh: NodeShape,
    b: Seq<u8>,
    i: int,
    t: Tally,
    max_xid: u64,
    limit: usize,
    depth: nat,
)
    requires
        0 <= i < sh.nkeys,
        depth > 0,
    ensures
        match omap_child(sh, b, i as u32) {
            Some(c) => children_tally(image, bs, sh, b, i, t, max_xid, limit, depth) == match walk_tally(
                image,
                bs,
                c,
                false,
                t,
                max_xid,
                limit,
                (depth - 1) as nat,
            ) {
                Err(()) => Err(()),
                Ok(t2) => children_tally(image, bs, sh, b, i + 1, t2, max_xid, limit, depth),
            },
            None => children_tally(image, bs, sh, b, i, t, max_xid, limit, depth) is Err,
        },
{
        }

fn leaf_mapping(node: &BtreeNode, index: u32) -> (r: Result<OmapValue, ScanError>)
    requires
        node.wf(),
        node.fixed_kv_size,
    ensures
        match omap_mapping(node.shape(), node.block@, index) {
            Some(m) => r == Ok::<OmapValue, ScanError>(m),
            None => r is Err,
        },
{
    let entry = node.entry(index)?;
    let key = node.key_bytes(&entry, OMAP_KEY_SIZE)?;
    let value = node.value_bytes(&entry, OMAP_VAL_SIZE)?;
    Ok(OmapValue {
        oid: le_u64(key, 0),
        xid: le_u64(key, 8),
        paddr: le_u64(value, 8),
        flags: le_u32(value, 0),
        size: le_u32(value, 4),
    })
}

fn internal_child(node: &BtreeNode, index: u32) -> (r: Result<u64, ScanError>)
    requires
        node.wf(),
        node.fixed_kv_size,
    ensures
        match omap_child(node.shape(), node.block@, index) {
            Some(c) => r == Ok::<u64, ScanError>(c),
            None => r is Err,
        },
{
    let entry = node.entry(index)?;
    let value = node.value_bytes(&entry, OMAP_INTERNAL_VAL_SIZE)?;
    Ok(le_u64(value, 0))
}

fn record_mapping(state: &mut SummarizeState, m: OmapValue, max_xid: u64, sample_limit: usize)
    ensures
        final(state).tally() == tally_mapping(old(state).tally(), m, max_xid, sample_limit),
{
    classify_flags(m.flags, state);
    if m.xid <= max_xid {
        state.mapping_count = state.mapping_count.wrapping_add(1);
        if m.xid > state.max_observed_xid {
            state.max_observed_xid = m.xid;
        }
        if state.samples.len() < sample_limit {
            state.samples.push(
                OmapDumpEntry { oid: m.oid, xid: m.xid, paddr: m.paddr, flags: m.flags, size: m.size },
            );
        }
    }
}

fn walk_node(
    state: &mut SummarizeState,
    image: &[u8],
    block_size: usize,
    paddr: u64,
    is_root: bool,
    max_xid: u64,
    sample_limit: usize,
    depth: usize,
) -> (r: Result<(), ScanError>)
    requires
        block_size >= 0x2c,
    ensures
        match walk_tally(image@, block_size, paddr, is_root, old(state).tally(), max_xid, sample_limit, depth as nat) {
            Ok(t) => r is Ok && final(state).tally() == t,
            Err(_) => r is Err,
        },
    decreases depth,
{
    if depth == 0 {
        assert(walk_tally(image@, block_size, paddr, is_root, state.tally(), max_xid, sample_limit, 0) is Err);
        return Err(ScanError::InvalidObject(msg_num(
            "OMAP walk revisits a node at paddr ",
            paddr,
            "; the tree has a cycle",
        )));
    }
    let ghost target = walk_tally(image@, block_size, paddr, is_root, state.tally(), max_xid, sample_limit, depth as nat);
    let read = read_btree_node(image, block_size, paddr, is_root, ExpectedStorage::Physical, None);
    let (block, _header) = match read {
        Ok(pair) => pair,
        Err(e) => {
            assert(target is Err);
            return Err(e);
        },
    };
    let node = match BtreeNode::parse(block.as_slice(), block_size) {
        Ok(n) => n,
        Err(e) => {
            assert(target is Err);
            return Err(e);
        },
    };
    if !node.fixed_kv_size {
        assert(target is Err);
        return Err(ScanError::InvalidObject(owned("OMAP B-tree node is not fixed-kv-size")));
    }
    let ghost sh = node.shape();
    let ghost b = block@;

    if node.is_leaf {
        state.leaf_node_count = state.leaf_node_count.wrapping_add(1);
        assert(target == leaf_tally(sh, b, 0, state.tally(), max_xid, sample_limit));
        let mut index: u32 = 0;
        while index < node.nkeys
            invariant
                node.wf(),
                node.fixed_kv_size,
                sh == node.shape(),
                b == node.block@,
                index <= node.nkeys,
                target == walk_tally(image@, block_size, paddr, is_root, old(state).tally(), max_xid, sample_limit, depth as nat),
                target == leaf_tally(sh, b, index as int, state.tally(), max_xid, sample_limit),
            decreases node.nkeys - index,
        {
            proof {
                lemma_leaf_step(sh, b, index as int, state.tally(), max_xid, sample_limit);
            }
            let m = leaf_mapping(&node, index)?;
            record_mapping(state, m, max_xid, sample_limit);
            index = index + 1;
        }
        assert(target == Ok::<Tally, ()>(state.tally()));
        return Ok(());
    }

    state.index_node_count = state.index_node_count.wrapping_add(1);
    assert(target == children_tally(image@, block_size, sh, b, 0, state.tally(), max_xid, sample_limit, depth as nat));
    let mut index: u32 = 0;
    while index < node.nkeys
        invariant
            node.wf(),
            node.fixed_kv_size,
            block_size >= 0x2c,
            depth > 0,
            sh == node.shape(),
            b == node.block@,
            index <= node.nkeys,
            target == walk_tally(image@, block_size, paddr, is_root, old(state).tally(), max_xid, sample_limit, depth as nat),
            target == children_tally(image@, block_size, sh, b, index as int, state.tally(), max_xid, sample_limit, depth as nat),
        decreases node.nkeys - index,
    {
        proof {
            lemma_children_step(image@, block_size, sh, b, index as int, state.tally(), max_xid, sample_limit, depth as nat);
        }
        let child_paddr = internal_child(&node, index)?;
        walk_node(state, image, block_size, child_paddr, false, max_xid, sample_limit, depth - 1)?;
        index = index + 1;
    }
    assert(target == Ok::<Tally, ()>(state.tally()));
    Ok(())
}

fn push_flag_line(out: &mut Vec<String>, name: &str, c: Option<u32>)
    ensures
        final(out)@.map_values(|s: String| s@) == old(out)@.map_values(|s: String| s@) + flag_line(
            name@,
            c,
        ),
{
    match c {
        None => {
            assert(final(out)@.map_values(|s: String| s@) =~= old(out)@.map_values(|s: String| s@) + flag_line(name@, c));
        },
        Some(n) => {
            let mut line = owned(name);
            line.append(": ");
            push_decimal(&mut line, n as u64);
            out.push(line);
            assert(out@.map_values(|s: String| s@) =~= old(out)@.map_values(|s: String| s@) + flag_line(name@, c));
        },
    }
}

/// `s` reports the finished diagnostic walk `t` of the map described by
/// `phys`.
pub open spec fn summary_matches(s: OmapSummary, phys: OmapPhysSummary, t: Tally) -> bool {
    &&& s.phys == phys
    &&& s.leaf_node_count == t.leaf_nodes
    &&& s.index_node_count == t.index_nodes
    &&& s.mapping_count == t.mappings
    &&& s.max_observed_xid == t.max_seen_xid
    &&& s.flagged_values@.map_values(|l: String| l@) == flagged_lines(t)
    &&& s.sample_mappings@ == t.samples
}

impl OmapResolver {
    /// The spec answer of the diagnostic walk.
    pub open spec fn summary_tally(&self, image: Seq<u8>, bs: usize, max_xid: u64, limit: usize) -> Result<
        Tally,
        (),
    > {
        walk_tally(image, bs, self.tree_root_paddr, true, empty_tally(), max_xid, limit, visit_budget(image.len() as int, bs))
    }

    /// Walks the whole object map and reports node and mapping counts, the
    /// largest xid within `max_xid`, per-flag counts and the first
    /// `sample_limit` in-scope mappings.
    pub fn summarize(&self, image: &[u8], block_size: usize, max_xid: u64, sample_limit: usize) -> (r: Result<
        OmapSummary,
        ScanError,
    >)
        requires
            block_size >= 0x2c,
        ensures
            match self.summary_tally(image@, block_size, max_xid, sample_limit) {
                Err(_) => r is Err,
                Ok(t) => r matches Ok(s) && summary_matches(s, self.phys, t),
            },
    {
        let mut state = SummarizeState {
            leaf_node_count: 0,
            index_node_count: 0,
            mapping_count: 0,
            max_observed_xid: 0,
            deleted: None,
            saved: None,
            encrypted: None,
            noheader: None,
            crypto_generation: None,
            samples: Vec::new(),
        };
        assert(state.tally() == empty_tally());
        let image_len = image.len();
        assert((image_len / block_size) * 2 <= image_len) by (nonlinear_arith)
            requires
                block_size >= 0x2c,
        ;
        let depth: usize = image_len / block_size + 1;
        walk_node(&mut state, image, block_size, self.tree_root_paddr, true, max_xid, sample_limit, depth)?;
        let mut flagged_values: Vec<String> = Vec::new();
        push_flag_line(&mut flagged_values, "crypto_generation", state.crypto_generation);
        push_flag_line(&mut flagged_values, "deleted", state.deleted);
        push_flag_line(&mut flagged_values, "encrypted", state.encrypted);
        push_flag_line(&mut flagged_values, "noheader", state.noheader);
        push_flag_line(&mut flagged_values, "saved", state.saved);
        Ok(OmapSummary {
            phys: self.phys,
            leaf_node_count: state.leaf_node_count,
            index_node_count: state.index_node_count,
            mapping_count: state.mapping_count,
            max_observed_xid: state.max_observed_xid,
            flagged_values,
            sample_mappings: state.samples,
        })
    }
}

} // verus!
