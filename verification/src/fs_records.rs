//! Read-only FS-tree record dumper: walks the FS-tree from its root, counts
//! leaf records by family, and decodes the body of every record of a known
//! family.
//!
//! FS-tree blocks are virtual objects: each internal-node value is a child
//! virtual object id that is resolved through the volume object map at the
//! scan XID before the child block is read. Internal values are never
//! physical addresses.

use std::collections::HashSet;

use vstd::prelude::*;

use crate::block_io::{le16, le64, le_u64};
use crate::btree::{
    entry_key, entry_value, node_block, node_expectation, node_parse_fails, read_btree_node, shape_entry,
    shape_of, BtreeNode, NodeShape,
};
use crate::fs_record_body::{
    decode_fs_record, family_name, key_object_id, key_raw_type, record_family_name, record_refused,
    row_matches, texts, FsRecordRow,
};
use crate::object::ExpectedStorage;
use crate::omap::{visit_budget, OmapResolver};
use crate::text::{decimal, hex_prefixed, msg_num, owned, push_decimal, push_hex_prefixed};
use crate::ScanError;

verus! {

broadcast use vstd::std_specs::hash::group_hash_axioms;

/// Size of the child object id an internal FS-tree value holds.
pub const FS_INTERNAL_VAL_SIZE: usize = 8;

/// What the dump reports for one FS-tree.
#[derive(Debug, Clone)]
pub struct FsRecordDump {
    pub volume_index: u32,
    pub volume_oid: u64,
    pub root_paddr: u64,
    pub leaf_node_count: u32,
    pub index_node_count: u32,
    pub leaf_record_count: u32,
    pub family_counts: Vec<FamilyCount>,
    pub unsupported_record_count: u32,
    pub unique_object_ids: u32,
    pub max_xid: u64,
    pub validation_notes: Vec<String>,
    /// The decoded rows of the records of known families, in walk order.
    pub records: Vec<FsRecordRow>,
}

/// How many leaf records of one family the walk met.
#[derive(Debug, Clone, Copy, PartialEq, Eq)]
pub struct FamilyCount {
    pub raw_type: u8,
    pub name: &'static str,
    pub count: u32,
    pub in_v1_namespace_scope: bool,
}

/// Families `0x1` through `0xd` are known; `0x0` and `0xe`, `0xf` are not.
pub open spec fn known_family(raw_type: u8) -> bool {
    1 <= raw_type <= 13
}

pub fn is_known_record_family(raw_type: u8) -> (r: bool)
    ensures
        r == known_family(raw_type),
{
    1 <= raw_type && raw_type <= 13
}

/// Families of the namespace and logical-size record set: directory
/// records, inodes, data-stream ids, extended attributes and sibling
/// records.
pub open spec fn namespace_family(raw_type: u8) -> bool {
    raw_type == 0x3 || raw_type == 0x4 || raw_type == 0x5 || raw_type == 0x6 || raw_type == 0x9
        || raw_type == 0xc
}

pub fn family_in_v1_namespace_scope(raw_type: u8) -> (r: bool)
    ensures
        r == namespace_family(raw_type),
{
    raw_type == 0x3 || raw_type == 0x4 || raw_type == 0x5 || raw_type == 0x6 || raw_type == 0x9
        || raw_type == 0xc
}

// ---- the walk, as a function of the image --------------------------------- //

/// One leaf entry the walk visits.
pub struct LeafVisit {
    pub node_paddr: u64,
    pub index: u32,
    pub key: Seq<u8>,
    pub value: Seq<u8>,
}

/// What the walk has gathered so far.
pub struct FsWalk {
    pub leaf_nodes: u32,
    pub index_nodes: u32,
    pub visits: Seq<LeafVisit>,
}

/// A leaf entry stops the walk when its key is shorter than `j_key_t`, or
/// it belongs to a known family and its record does not decode.
pub open spec fn visit_refused(key: Seq<u8>, value: Seq<u8>) -> bool {
    key.len() < 8 || (known_family(key_raw_type(key)) && record_refused(key, value))
}

/// The walk state after the leaf entries of a node from `i` on.
pub open spec fn leaf_visits(sh: NodeShape, b: Seq<u8>, paddr: u64, i: int, w: FsWalk) -> Result<FsWalk, ()>
    decreases sh.nkeys - i,
{
    if i < 0 || i >= sh.nkeys {
        Ok(w)
    } else {
        match shape_entry(sh, b, i as u32) {
            None => Err(()),
            Some(e) => match entry_key(b, e, 0) {
                None => Err(()),
                Some(k) => match entry_value(b, e, 0) {
                    None => Err(()),
                    Some(v) => if visit_refused(k, v) {
                        Err(())
                    } else {
                        leaf_visits(
                            sh,
                            b,
                            paddr,
                            i + 1,
                            FsWalk {
                                visits: w.visits.push(LeafVisit { node_paddr: paddr, index: i as u32, key: k, value: v }),
                                ..w
                            },
                        )
                    },
                },
            },
        }
    }
}

/// The child object id that internal entry `i` holds.
pub open spec fn fs_child_oid(sh: NodeShape, b: Seq<u8>, i: int) -> Option<u64> {
    match shape_entry(sh, b, i as u32) {
        None => None,
        Some(e) => match entry_value(b, e, FS_INTERNAL_VAL_SIZE) {
            None => None,
            Some(v) => if v.len() < FS_INTERNAL_VAL_SIZE {
                None
            } else {
                Some(le64(v, 0) as u64)
            },
        },
    }
}

/// Where the value of entry `i` begins: the value area's end less the
/// value offset stored in the entry's table-of-contents slot (4 bytes
/// wide in fixed-size nodes, 8 otherwise).
pub open spec fn toc_value_start(sh: NodeShape, b: Seq<u8>, i: int) -> int {
    if sh.fixed_kv_size {
        sh.value_area_end - le16(b, sh.toc_offset + 4 * i + 2)
    } else {
        sh.value_area_end - le16(b, sh.toc_offset + 8 * i + 4)
    }
}

/// The child of internal entry `i` is the little-endian `u64` at the start
/// of entry `i`'s own value, read through entry `i`'s own table-of-contents
/// slot; so entries whose values differ lead to different children.
pub proof fn lemma_child_oid_is_entry_value(sh: NodeShape, b: Seq<u8>, i: int, j: int)
    requires
        0 <= i < sh.nkeys,
        0 <= j < sh.nkeys,
    ensures
        fs_child_oid(sh, b, i) matches Some(o) ==> o == le64(b, toc_value_start(sh, b, i)),
        fs_child_oid(sh, b, i) matches Some(o) ==> fs_child_oid(sh, b, j) matches Some(q) ==> le64(
            b,
            toc_value_start(sh, b, i),
        ) != le64(b, toc_value_start(sh, b, j)) ==> o != q,
{
    lemma_child_oid_at(sh, b, i);
    lemma_child_oid_at(sh, b, j);
}

proof fn lemma_child_oid_at(sh: NodeShape, b: Seq<u8>, i: int)
    requires
        0 <= i < sh.nkeys,
    ensures
        fs_child_oid(sh, b, i) matches Some(o) ==> o == le64(b, toc_value_start(sh, b, i)),
{
    if let Some(e) = shape_entry(sh, b, i as u32) {
        if let Some(v) = entry_value(b, e, FS_INTERNAL_VAL_SIZE) {
            if v.len() >= FS_INTERNAL_VAL_SIZE {
                assert(e.value_start == toc_value_start(sh, b, i));
                assert(v[0] == b[e.value_start as int]);
                assert(v[1] == b[e.value_start + 1]);
                assert(v[2] == b[e.value_start + 2]);
                assert(v[3] == b[e.value_start + 3]);
                assert(v[4] == b[e.value_start + 4]);
                assert(v[5] == b[e.value_start + 5]);
                assert(v[6] == b[e.value_start + 6]);
                assert(v[7] == b[e.value_start + 7]);
            }
        }
    }
}

/// Every entry of an internal node holds a child object id.
pub open spec fn fs_children_ok(sh: NodeShape, b: Seq<u8>) -> bool {
    forall|i: int| 0 <= i < sh.nkeys ==> #[trigger] fs_child_oid(sh, b, i) is Some
}

/// The walk state after the subtree at `paddr`, allowing `depth` more
/// levels (a deeper path must revisit a block and is refused).
pub open spec fn fs_walk(
    image: Seq<u8>,
    bs: usize,
    omap: OmapResolver,
    paddr: u64,
    is_root: bool,
    w: FsWalk,
    max_xid: u64,
    depth: nat,
) -> Result<FsWalk, ()>
    decreases depth, 0x1_0000_0002int,
{
    if depth == 0 {
        Err(())
    } else {
        match node_block(image, bs, paddr, node_expectation(is_root, ExpectedStorage::Virtual, Some(max_xid))) {
            None => Err(()),
            Some(b) => if node_parse_fails(b, bs as int) {
                Err(())
            } else {
                let sh = shape_of(b, bs);
                if sh.fixed_kv_size {
                    Err(())
                } else if sh.is_leaf {
                    leaf_visits(sh, b, paddr, 0, FsWalk { leaf_nodes: w.leaf_nodes.wrapping_add(1), ..w })
                } else if !fs_children_ok(sh, b) {
                    Err(())
                } else {
                    fs_children(
                        image,
                        bs,
                        omap,
                        sh,
                        b,
                        0,
                        FsWalk { index_nodes: w.index_nodes.wrapping_add(1), ..w },
                        max_xid,
                        depth,
                    )
                }
            },
        }
    }
}

/// The walk state after the children of an internal node from entry `i`
/// on: each child id is resolved through the object map at `max_xid` and
/// its subtree walked with one level less.
pub open spec fn fs_children(
    image: Seq<u8>,
    bs: usize,
    omap: OmapResolver,
    sh: NodeShape,
    b: Seq<u8>,
    i: int,
    w: FsWalk,
    max_xid: u64,
    depth: nat,
) -> Result<FsWalk, ()>
    decreases depth, sh.nkeys - i,
{
    if i < 0 || i >= sh.nkeys || depth == 0 {
        Ok(w)
    } else {
        match fs_child_oid(sh, b, i) {
            None => Err(()),
            Some(oid) => match omap.lookup_spec(image, bs, oid, max_xid) {
                Some(Ok(Some(m))) => match fs_walk(image, bs, omap, m.paddr, false, w, max_xid, (depth - 1) as nat) {
                    Err(()) => Err(()),
                    Ok(w2) => fs_children(image, bs, omap, sh, b, i + 1, w2, max_xid, depth),
                },
                _ => Err(()),
            },
        }
    }
}

// ---- what the walk state says --------------------------------------------- //

/// The number of visits satisfying `p`, counted in `u32` with wrap-around.
pub open spec fn wcount(vs: Seq<LeafVisit>, p: spec_fn(LeafVisit) -> bool) -> u32
    decreases vs.len(),
{
    if vs.len() == 0 {
        0
    } else {
        let c = wcount(vs.drop_last(), p);
        if p(vs.last()) {
            c.wrapping_add(1)
        } else {
            c
        }
    }
}

pub open spec fn of_raw(r: u8) -> spec_fn(LeafVisit) -> bool {
    |v: LeafVisit| key_raw_type(v.key) == r
}

pub open spec fn any_visit() -> spec_fn(LeafVisit) -> bool {
    |v: LeafVisit| true
}

pub open spec fn unknown_visit() -> spec_fn(LeafVisit) -> bool {
    |v: LeafVisit| !known_family(key_raw_type(v.key))
}

/// Whether some visit has record type `r`.
pub open spec fn raw_seen(vs: Seq<LeafVisit>, r: u8) -> bool {
    exists|i: int| 0 <= i < vs.len() && key_raw_type(#[trigger] vs[i].key) == r
}

/// The object ids of the visits.
pub open spec fn visit_ids(vs: Seq<LeafVisit>) -> Set<u64>
    decreases vs.len(),
{
    if vs.len() == 0 {
        Set::empty()
    } else {
        visit_ids(vs.drop_last()).insert(key_object_id(vs.last().key))
    }
}

/// The note recorded for a record of an unknown family.
pub open spec fn unknown_type_note(v: LeafVisit) -> Seq<char> {
    "FS-tree node "@ + decimal(v.node_paddr as nat) + " entry "@ + decimal(v.index as nat)
        + " carries unknown record type "@ + hex_prefixed(key_raw_type(v.key) as nat)
}

/// The notes of the visits of unknown families, in order.
pub open spec fn visit_notes(vs: Seq<LeafVisit>) -> Seq<Seq<char>>
    decreases vs.len(),
{
    if vs.len() == 0 {
        Seq::empty()
    } else if known_family(key_raw_type(vs.last().key)) {
        visit_notes(vs.drop_last())
    } else {
        visit_notes(vs.drop_last()).push(unknown_type_note(vs.last()))
    }
}

/// The visits of known families, in order.
pub open spec fn known_visits(vs: Seq<LeafVisit>) -> Seq<LeafVisit>
    decreases vs.len(),
{
    if vs.len() == 0 {
        Seq::empty()
    } else if known_family(key_raw_type(vs.last().key)) {
        known_visits(vs.drop_last()).push(vs.last())
    } else {
        known_visits(vs.drop_last())
    }
}

/// `rows` are the decodings of the records `vs`.
pub open spec fn rows_match(rows: Seq<FsRecordRow>, vs: Seq<LeafVisit>) -> bool {
    &&& rows.len() == vs.len()
    &&& forall|i: int|
        0 <= i < vs.len() ==> #[trigger] row_matches(rows[i], vs[i].node_paddr, vs[i].index, vs[i].key, vs[i].value)
}

/// The per-family rows for record types `r` and up, ascending.
pub open spec fn family_rows(vs: Seq<LeafVisit>, r: int) -> Seq<(u8, u32)>
    decreases 16 - r,
{
    if r < 0 || r >= 16 {
        Seq::empty()
    } else if raw_seen(vs, r as u8) {
        seq![(r as u8, wcount(vs, of_raw(r as u8)))] + family_rows(vs, r + 1)
    } else {
        family_rows(vs, r + 1)
    }
}

/// `fc` lists, for each record type met, ascending, its count, family name
/// and namespace scope.
pub open spec fn family_counts_match(fc: Seq<FamilyCount>, vs: Seq<LeafVisit>) -> bool {
    let rows = family_rows(vs, 0);
    &&& fc.len() == rows.len()
    &&& forall|i: int| 0 <= i < rows.len() ==> family_row_ok(#[trigger] fc[i], rows[i])
}

/// `d` reports the finished walk `w` of the FS-tree rooted at `root_paddr`.
pub open spec fn dump_matches(
    d: FsRecordDump,
    w: FsWalk,
    volume_index: u32,
    volume_oid: u64,
    root_paddr: u64,
    max_xid: u64,
) -> bool {
    &&& d.volume_index == volume_index
    &&& d.volume_oid == volume_oid
    &&& d.root_paddr == root_paddr
    &&& d.max_xid == max_xid
    &&& d.leaf_node_count == w.leaf_nodes
    &&& d.index_node_count == w.index_nodes
    &&& d.leaf_record_count == wcount(w.visits, any_visit())
    &&& family_counts_match(d.family_counts@, w.visits)
    &&& d.unsupported_record_count == wcount(w.visits, unknown_visit())
    &&& d.unique_object_ids == visit_ids(w.visits).len() as u32
    &&& texts(d.validation_notes@) == visit_notes(w.visits)
    &&& rows_match(d.records@, known_visits(w.visits))
}

pub open spec fn empty_walk() -> FsWalk {
    FsWalk { leaf_nodes: 0, index_nodes: 0, visits: Seq::empty() }
}

// ---- the walk ------------------------------------------------------------- //

struct DumpState {
    leaf_node_count: u32,
    index_node_count: u32,
    leaf_record_count: u32,
    family_counts: Vec<u32>,
    family_seen: Vec<bool>,
    unsupported_record_count: u32,
    unique_object_ids: HashSet<u64>,
    validation_notes: Vec<String>,
    records: Vec<FsRecordRow>,
}

/// `st` holds what the walk state `w` says.
spec fn state_matches(st: &DumpState, w: FsWalk) -> bool {
    &&& st.leaf_node_count == w.leaf_nodes
    &&& st.index_node_count == w.index_nodes
    &&& st.leaf_record_count == wcount(w.visits, any_visit())
    &&& st.family_counts@.len() == 16
    &&& st.family_seen@.len() == 16
    &&& forall|r: int| 0 <= r < 16 ==> #[trigger] state_slot_ok(st, w, r)
    &&& st.unsupported_record_count == wcount(w.visits, unknown_visit())
    &&& st.unique_object_ids@ == visit_ids(w.visits)
    &&& texts(st.validation_notes@) == visit_notes(w.visits)
    &&& rows_match(st.records@, known_visits(w.visits))
}

/// Slot `r` of the family tables holds the count and presence of type `r`.
spec fn state_slot_ok(st: &DumpState, w: FsWalk, r: int) -> bool {
    &&& st.family_counts@[r] == wcount(w.visits, of_raw(r as u8))
    &&& st.family_seen@[r] == raw_seen(w.visits, r as u8)
}

proof fn lemma_visit_push(vs: Seq<LeafVisit>, v: LeafVisit)
    ensures
        forall|p: spec_fn(LeafVisit) -> bool|
            #[trigger] wcount(vs.push(v), p) == if p(v) {
                wcount(vs, p).wrapping_add(1)
            } else {
                wcount(vs, p)
            },
        forall|r: u8| #[trigger] raw_seen(vs.push(v), r) == (raw_seen(vs, r) || key_raw_type(v.key) == r),
        visit_ids(vs.push(v)) == visit_ids(vs).insert(key_object_id(v.key)),
        visit_notes(vs.push(v)) == if known_family(key_raw_type(v.key)) {
            visit_notes(vs)
        } else {
            visit_notes(vs).push(unknown_type_note(v))
        },
        known_visits(vs.push(v)) == if known_family(key_raw_type(v.key)) {
            known_visits(vs).push(v)
        } else {
            known_visits(vs)
        },
{
    let s = vs.push(v);
    assert(s.drop_last() =~= vs);
    assert(s.last() == v);
    assert forall|r: u8| #[trigger] raw_seen(s, r) == (raw_seen(vs, r) || key_raw_type(v.key) == r) by {
        if raw_seen(s, r) {
            let i = choose|i: int| 0 <= i < s.len() && key_raw_type(#[trigger] s[i].key) == r;
            if i < vs.len() {
                assert(vs[i] == s[i]);
            }
        }
        if raw_seen(vs, r) {
            let i = choose|i: int| 0 <= i < vs.len() && key_raw_type(#[trigger] vs[i].key) == r;
            assert(s[i] == vs[i]);
        }
        if key_raw_type(v.key) == r {
            assert(s[vs.len() as int] == v);
        }
    }
}

/// Visits the leaf entries of `node` in order.
fn visit_leaf(state: &mut DumpState, node: &BtreeNode, paddr: u64, Ghost(w0): Ghost<FsWalk>) -> (r: Result<
    (),
    ScanError,
>)
    requires
        node.wf(),
        state_matches(old(state), w0),
    ensures
        match leaf_visits(node.shape(), node.block@, paddr, 0, w0) {
            Ok(w) => r is Ok && state_matches(final(state), w),
            Err(_) => r is Err,
        },
{
    let ghost sh = node.shape();
    let ghost b = node.block@;
    let ghost target = leaf_visits(sh, b, paddr, 0, w0);
    let ghost mut w = w0;
    let mut index: u32 = 0;
    while index < node.nkeys
        invariant
            node.wf(),
            sh == node.shape(),
            b == node.block@,
            index <= node.nkeys,
            target == leaf_visits(sh, b, paddr, 0, w0),
            target == leaf_visits(sh, b, paddr, index as int, w),
            state_matches(state, w),
        decreases node.nkeys - index,
    {
        let entry = node.entry(index)?;
        let key = node.key_bytes(&entry, 0)?;
        let value = node.value_bytes(&entry, 0)?;
        if key.len() < 8 {
            return Err(ScanError::InvalidObject(msg_num(
                "FS-tree leaf key at node ",
                paddr,
                " is shorter than j_key_t",
            )));
        }
        let key_word = le_u64(key, 0);
        let object_id = key_word & 0x0fff_ffff_ffff_ffffu64;
        let raw_type = (key_word >> 60u64) as u8;
        assert((key_word >> 60u64) < 16) by (bit_vector);
        let ghost v = LeafVisit { node_paddr: paddr, index, key: key@, value: value@ };
        assert(raw_type == key_raw_type(v.key));
        assert(object_id == key_object_id(v.key));
        proof {
            lemma_visit_push(w.visits, v);
        }
        let slot = raw_type as usize;
        let ghost old_state = *state;
        let c = state.family_counts[slot];
        state.family_counts.set(slot, c.wrapping_add(1));
        state.family_seen.set(slot, true);
        state.leaf_record_count = state.leaf_record_count.wrapping_add(1);
        state.unique_object_ids.insert(object_id);
        let known = is_known_record_family(raw_type);
        if !known {
            state.unsupported_record_count = state.unsupported_record_count.wrapping_add(1);
            let mut note = msg_num("FS-tree node ", paddr, " entry ");
            push_decimal(&mut note, index as u64);
            note.append(" carries unknown record type ");
            push_hex_prefixed(&mut note, raw_type as u64);
            state.validation_notes.push(note);
        } else {
            let row = decode_fs_record(paddr, index, key, value)?;
            state.records.push(row);
        }
        proof {
            let w2 = FsWalk { visits: w.visits.push(v), ..w };
            assert(texts(state.validation_notes@) =~= visit_notes(w2.visits));
            assert forall|r: int| 0 <= r < 16 implies state_slot_ok(state, w2, r) by {
                assert(of_raw(r as u8)(v) == (raw_type == r as u8));
                assert(raw_type == r as u8 <==> slot == r);
                assert(wcount(w2.visits, of_raw(r as u8)) == if of_raw(r as u8)(v) {
                    wcount(w.visits, of_raw(r as u8)).wrapping_add(1)
                } else {
                    wcount(w.visits, of_raw(r as u8))
                });
                assert(raw_seen(w2.visits, r as u8) == (raw_seen(w.visits, r as u8) || key_raw_type(v.key) == r as u8));
                assert(state_slot_ok(&old_state, w, r));
            }
            assert(wcount(w2.visits, any_visit()) == wcount(w.visits, any_visit()).wrapping_add(1));
            assert(wcount(w2.visits, unknown_visit()) == if unknown_visit()(v) {
                wcount(w.visits, unknown_visit()).wrapping_add(1)
            } else {
                wcount(w.visits, unknown_visit())
            });
            w = w2;
        }
        index = index + 1;
    }
    Ok(())
}

/// The child object id internal entry `index` holds.
fn child_oid(node: &BtreeNode, paddr: u64, index: u32) -> (r: Result<u64, ScanError>)
    requires
        node.wf(),
    ensures
        match fs_child_oid(node.shape(), node.block@, index as int) {
            Some(c) => r == Ok::<u64, ScanError>(c),
            None => r is Err,
        },
{
    let entry = node.entry(index)?;
    let value = node.value_bytes(&entry, FS_INTERNAL_VAL_SIZE)?;
    if value.len() < FS_INTERNAL_VAL_SIZE {
        let mut msg = msg_num("FS-tree internal value at ", paddr, " entry ");
        push_decimal(&mut msg, index as u64);
        msg.append(" shorter than child oid");
        return Err(ScanError::InvalidObject(msg));
    }
    Ok(le_u64(value, 0))
}

proof fn lemma_children_step(
    image: Seq<u8>,
    bs: usize,
    omap: OmapResolver,
    sh: NodeShape,
    b: Seq<u8>,
    i: int,
    w: FsWalk,
    max_xid: u64,
    depth: nat,
)
    requires
        0 <= i < sh.nkeys,
        depth > 0,
    ensures
        match fs_child_oid(sh, b, i) {
            None => fs_children(image, bs, omap, sh, b, i, w, max_xid, depth) is Err,
            Some(oid) => match omap.lookup_spec(image, bs, oid, max_xid) {
                Some(Ok(Some(m))) => fs_children(image, bs, omap, sh, b, i, w, max_xid, depth) == match fs_walk(
                    image,
                    bs,
                    omap,
                    m.paddr,
                    false,
                    w,
                    max_xid,
                    (depth - 1) as nat,
                ) {
                    Err(()) => Err(()),
                    Ok(w2) => fs_children(image, bs, omap, sh, b, i + 1, w2, max_xid, depth),
                },
                _ => fs_children(image, bs, omap, sh, b, i, w, max_xid, depth) is Err,
            },
        },
{
}

/// The child ids of all entries of an internal node, or an error when one
/// does not decode.
fn collect_children(node: &BtreeNode, paddr: u64) -> (r: Result<Vec<u64>, ScanError>)
    requires
        node.wf(),
    ensures
        match r {
            Ok(c) => fs_children_ok(node.shape(), node.block@) && c@.len() == node.nkeys && forall|k: int|
                0 <= k < node.nkeys ==> fs_child_oid(node.shape(), node.block@, k) == Some(#[trigger] c@[k]),
            Err(_) => !fs_children_ok(node.shape(), node.block@),
        },
{
    let ghost sh = node.shape();
    let ghost b = node.block@;
    let mut children: Vec<u64> = Vec::new();
    let mut index: u32 = 0;
    while index < node.nkeys
        invariant
            node.wf(),
            sh == node.shape(),
            b == node.block@,
            index <= node.nkeys,
            children@.len() == index,
            forall|k: int| 0 <= k < index ==> fs_child_oid(sh, b, k) == Some(#[trigger] children@[k]),
        decreases node.nkeys - index,
    {
        let c = child_oid(node, paddr, index)?;
        children.push(c);
        index = index + 1;
    }
    assert forall|i: int| 0 <= i < sh.nkeys implies #[trigger] fs_child_oid(sh, b, i) is Some by {
        assert(fs_child_oid(sh, b, i) == Some(children@[i]));
    }
    Ok(children)
}

#[verifier::rlimit(60)]
fn walk_fs_node(
    state: &mut DumpState,
    image: &[u8],
    block_size: usize,
    paddr: u64,
    is_root: bool,
    max_xid: u64,
    omap: &OmapResolver,
    depth: usize,
    Ghost(w0): Ghost<FsWalk>,
) -> (r: Result<(), ScanError>)
    requires
        block_size >= 0x2c,
        state_matches(old(state), w0),
    ensures
        match fs_walk(image@, block_size, *omap, paddr, is_root, w0, max_xid, depth as nat) {
            Ok(w) => r is Ok && state_matches(final(state), w),
            Err(_) => r is Err,
        },
    decreases depth,
{
    if depth == 0 {
        return Err(ScanError::InvalidObject(msg_num(
            "FS-tree walk revisits a node at paddr ",
            paddr,
            "; the tree has a cycle",
        )));
    }
    let ghost target = fs_walk(image@, block_size, *omap, paddr, is_root, w0, max_xid, depth as nat);
    let (block, _header) = match read_btree_node(
        image,
        block_size,
        paddr,
        is_root,
        ExpectedStorage::Virtual,
        Some(max_xid),
    ) {
        Ok(pair) => pair,
        Err(e) => {
            return Err(e);
        },
    };
    let node = match BtreeNode::parse(block.as_slice(), block_size) {
        Ok(n) => n,
        Err(e) => {
            return Err(e);
        },
    };
    if node.fixed_kv_size {
        return Err(ScanError::InvalidObject(owned("FS-tree node should not be fixed-kv-size")));
    }
    let ghost sh = node.shape();
    let ghost b = block@;
    let ghost old_state = *state;
    if node.is_leaf {
        state.leaf_node_count = state.leaf_node_count.wrapping_add(1);
        let ghost w1 = FsWalk { leaf_nodes: w0.leaf_nodes.wrapping_add(1), ..w0 };
        proof {
            assert forall|r: int| 0 <= r < 16 implies #[trigger] state_slot_ok(state, w1, r) by {
                assert(state_slot_ok(&old_state, w0, r));
            }
        }
        assert(target == leaf_visits(sh, b, paddr, 0, w1));
        return visit_leaf(state, &node, paddr, Ghost(w1));
    }
    state.index_node_count = state.index_node_count.wrapping_add(1);
    let ghost w1 = FsWalk { index_nodes: w0.index_nodes.wrapping_add(1), ..w0 };
    proof {
        assert forall|r: int| 0 <= r < 16 implies #[trigger] state_slot_ok(state, w1, r) by {
            assert(state_slot_ok(&old_state, w0, r));
        }
    }
    let children = match collect_children(&node, paddr) {
        Ok(c) => c,
        Err(e) => {
            return Err(e);
        },
    };
    assert(target == fs_children(image@, block_size, *omap, sh, b, 0, w1, max_xid, depth as nat));
    let ghost mut w = w1;
    let mut index: u32 = 0;
    while index < node.nkeys
        invariant
            node.wf(),
            block_size >= 0x2c,
            depth > 0,
            sh == node.shape(),
            b == node.block@,
            index <= node.nkeys,
            children@.len() == node.nkeys,
            forall|k: int| 0 <= k < node.nkeys ==> fs_child_oid(sh, b, k) == Some(#[trigger] children@[k]),
            target == fs_walk(image@, block_size, *omap, paddr, is_root, w0, max_xid, depth as nat),
            target == fs_children(image@, block_size, *omap, sh, b, index as int, w, max_xid, depth as nat),
            state_matches(state, w),
        decreases node.nkeys - index,
    {
        let child = children[index as usize];
        proof {
            lemma_children_step(image@, block_size, *omap, sh, b, index as int, w, max_xid, depth as nat);
            assert(fs_child_oid(sh, b, index as int) == Some(child));
        }
        let looked = omap.lookup(image, block_size, child, max_xid);
        let mapping = match looked {
            Ok(Some(m)) => m,
            Ok(None) => {
                let mut msg = msg_num("FS-tree internal entry at ", paddr, "/");
                push_decimal(&mut msg, index as u64);
                msg.append(" child oid ");
                push_decimal(&mut msg, child);
                msg.append(" not resolvable in volume OMAP at max_xid ");
                push_decimal(&mut msg, max_xid);
                return Err(ScanError::InvalidObject(msg));
            },
            Err(e) => {
                return Err(e);
            },
        };
        let ghost next = fs_walk(image@, block_size, *omap, mapping.paddr, false, w, max_xid, (depth - 1) as nat);
        walk_fs_node(state, image, block_size, mapping.paddr, false, max_xid, omap, depth - 1, Ghost(w))?;
        proof {
            w = next.get_Ok_0();
        }
        index = index + 1;
    }
    Ok(())
}

/// Walks the FS-tree at `root_paddr`, counts its leaf records by family
/// and decodes the records of known families.
///
/// Internal entries carry virtual child ids, each resolved through
/// `volume_omap` at `max_xid`. A walk deeper than the image has blocks is
/// on a cycle and is refused with `InvalidObject`.
pub fn dump_fs_records(
    image: &[u8],
    block_size: usize,
    volume_index: u32,
    volume_oid: u64,
    root_paddr: u64,
    max_xid: u64,
    volume_omap: &OmapResolver,
) -> (r: Result<FsRecordDump, ScanError>)
    requires
        block_size >= 0x2c,
    ensures
        match fs_walk(
            image@,
            block_size,
            *volume_omap,
            root_paddr,
            true,
            empty_walk(),
            max_xid,
            visit_budget(image@.len() as int, block_size),
        ) {
            Ok(w) => r matches Ok(d) && dump_matches(d, w, volume_index, volume_oid, root_paddr, max_xid),
            Err(_) => r is Err,
        },
{
    let mut family_counts_by_type: Vec<u32> = Vec::new();
    let mut family_seen: Vec<bool> = Vec::new();
    let mut k: usize = 0;
    while k < 16
        invariant
            k <= 16,
            family_counts_by_type@.len() == k,
            family_seen@.len() == k,
            forall|j: int| 0 <= j < k ==> family_counts_by_type@[j] == 0u32 && family_seen@[j] == false,
        decreases 16 - k,
    {
        family_counts_by_type.push(0);
        family_seen.push(false);
        k = k + 1;
    }
    let mut state = DumpState {
        leaf_node_count: 0,
        index_node_count: 0,
        leaf_record_count: 0,
        family_counts: family_counts_by_type,
        family_seen,
        unsupported_record_count: 0,
        unique_object_ids: HashSet::new(),
        validation_notes: Vec::new(),
        records: Vec::new(),
    };
    proof {
        let w = empty_walk();
        assert(texts(state.validation_notes@) =~= visit_notes(w.visits));
        assert(known_visits(w.visits) =~= Seq::<LeafVisit>::empty());
        assert forall|r: int| 0 <= r < 16 implies #[trigger] state_slot_ok(&state, w, r) by {}
    }
    let image_len = image.len();
    assert((image_len / block_size) * 2 <= image_len) by (nonlinear_arith)
        requires
            block_size >= 0x2c,
    ;
    let depth: usize = image_len / block_size + 1;
    walk_fs_node(&mut state, image, block_size, root_paddr, true, max_xid, volume_omap, depth, Ghost(empty_walk()))?;
    let ghost w = fs_walk(image@, block_size, *volume_omap, root_paddr, true, empty_walk(), max_xid, depth as nat).get_Ok_0();
    proof {
        assert forall|t: int| 0 <= t < 16 implies #[trigger] state.family_counts@[t] == wcount(w.visits, of_raw(t as u8)) by {
            assert(state_slot_ok(&state, w, t));
        }
        assert forall|t: int| 0 <= t < 16 implies #[trigger] state.family_seen@[t] == raw_seen(w.visits, t as u8) by {
            assert(state_slot_ok(&state, w, t));
        }
    }
    let family_counts = family_count_rows(&state.family_counts, &state.family_seen, Ghost(w.visits));
    let unique = state.unique_object_ids.len() as u32;
    Ok(FsRecordDump {
        volume_index,
        volume_oid,
        root_paddr,
        leaf_node_count: state.leaf_node_count,
        index_node_count: state.index_node_count,
        leaf_record_count: state.leaf_record_count,
        family_counts,
        unsupported_record_count: state.unsupported_record_count,
        unique_object_ids: unique,
        max_xid,
        validation_notes: state.validation_notes,
        records: state.records,
    })
}

/// The per-family rows, ascending by record type, of the types met.
fn family_count_rows(counts: &Vec<u32>, seen: &Vec<bool>, Ghost(vs): Ghost<Seq<LeafVisit>>) -> (r: Vec<FamilyCount>)
    requires
        counts@.len() == 16,
        seen@.len() == 16,
        forall|t: int| 0 <= t < 16 ==> #[trigger] counts@[t] == wcount(vs, of_raw(t as u8)),
        forall|t: int| 0 <= t < 16 ==> #[trigger] seen@[t] == raw_seen(vs, t as u8),
    ensures
        family_counts_match(r@, vs),
{
    let mut out: Vec<FamilyCount> = Vec::new();
    let mut t: usize = 0;
    while t < 16
        invariant
            t <= 16,
            counts@.len() == 16,
            seen@.len() == 16,
            forall|u: int| 0 <= u < 16 ==> #[trigger] counts@[u] == wcount(vs, of_raw(u as u8)),
            forall|u: int| 0 <= u < 16 ==> #[trigger] seen@[u] == raw_seen(vs, u as u8),
            out@.len() + family_rows(vs, t as int).len() == family_rows(vs, 0).len(),
            forall|i: int| 0 <= i < out@.len() ==> family_row_ok(#[trigger] out@[i], family_rows(vs, 0)[i]),
            forall|i: int| 0 <= i < family_rows(vs, t as int).len() ==> #[trigger] family_rows(vs, t as int)[i]
                == family_rows(vs, 0)[out@.len() + i],
        decreases 16 - t,
    {
        let ghost before = out@.len();
        if seen[t] {
            let raw = t as u8;
            out.push(FamilyCount {
                raw_type: raw,
                name: record_family_name(raw),
                count: counts[t],
                in_v1_namespace_scope: family_in_v1_namespace_scope(raw),
            });
            proof {
                assert(family_rows(vs, t as int)[0] == (raw, wcount(vs, of_raw(raw))));
                assert forall|i: int| 0 <= i < family_rows(vs, t + 1).len() implies #[trigger] family_rows(
                    vs,
                    t + 1,
                )[i] == family_rows(vs, 0)[out@.len() + i] by {
                    assert(family_rows(vs, t + 1)[i] == family_rows(vs, t as int)[i + 1]);
                }
            }
        } else {
            proof {
                assert(family_rows(vs, t as int) == family_rows(vs, t + 1));
            }
        }
        t = t + 1;
    }
    proof {
        assert(family_rows(vs, 16).len() == 0);
    }
    out
}

/// `f` reports the row `(raw_type, count)`.
pub open spec fn family_row_ok(f: FamilyCount, row: (u8, u32)) -> bool {
    &&& f.raw_type == row.0
    &&& f.count == row.1
    &&& f.name@ == family_name(row.0)
    &&& f.in_v1_namespace_scope == namespace_family(row.0)
}

} // verus!
