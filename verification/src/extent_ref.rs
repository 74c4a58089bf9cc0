//! Read-only walk of a volume's extent-reference tree: one `j_phys_ext`
//! record per physically allocated extent, with the count of file extents
//! that reference it.
//!
//! The tree is physical (internal values are block addresses) or virtual
//! (internal values are object ids resolved through the volume object map
//! at the scan xid). A node seen twice, or a path deeper than
//! `MAX_TREE_DEPTH`, stops the walk.

use std::collections::HashSet;

use vstd::prelude::*;

use crate::block_io::{le32, le64, le_u32, le_u64};
use crate::btree::{
    entry_key, entry_value, node_block, node_expectation, node_parse_fails, read_btree_node, shape_entry, shape_of,
    BtreeNode, NodeShape,
};
use crate::namespace::MAX_TREE_DEPTH;
use crate::object::ExpectedStorage;
use crate::omap::OmapResolver;
use crate::text::{decimal, hex_prefixed, msg_num, owned, push_decimal, push_hex_prefixed};
use crate::ScanError;

verus! {

broadcast use vstd::std_specs::hash::group_hash_axioms;

/// The low 60 bits of a key or length word.
pub const EXT_OBJECT_ID_MASK: u64 = 0x0fff_ffff_ffff_ffff;

/// Record type of `j_phys_ext` keys.
pub const RAW_TYPE_EXTENT_REFERENCE: u8 = 0x2;

/// Size of `j_phys_ext_key_t`.
pub const PHYS_EXT_KEY_SIZE: usize = 8;

/// Size of `j_phys_ext_val_t`.
pub const PHYS_EXT_VAL_SIZE: usize = 20;

/// Size of an internal-node value: a child block address or object id.
pub const EXT_INTERNAL_VAL_SIZE: usize = 8;

/// Storage class of the extent-reference tree.
#[derive(Debug, Clone, Copy, PartialEq, Eq, Structural)]
pub enum ExtentRefStorage {
    /// `OBJ_PHYSICAL`: child values are block addresses.
    Physical,
    /// `OBJ_VIRTUAL`: child values are object ids resolved through the
    /// volume object map.
    Virtual,
}

/// The storage class byte of `extentref_tree_type_raw`.
pub open spec fn storage_class_byte(type_raw: u32) -> u32 {
    (type_raw >> 24u32) & 0xff
}

/// The text of a refused storage class.
pub open spec fn storage_refusal_text(class: u32) -> Seq<char> {
    "extent-reference tree storage class "@ + hex_prefixed(class as nat)
        + " is not supported (expected 0x00 virtual or 0x40 physical)"@
}

impl ExtentRefStorage {
    /// Decodes the storage class from the high byte of
    /// `extentref_tree_type_raw`: `0x00` is virtual, `0x40` physical, any
    /// other value is refused.
    pub fn from_type_raw(type_raw: u32) -> (r: Result<Self, ScanError>)
        ensures
            storage_class_byte(type_raw) == 0x00 ==> r == Ok::<Self, ScanError>(ExtentRefStorage::Virtual),
            storage_class_byte(type_raw) == 0x40 ==> r == Ok::<Self, ScanError>(ExtentRefStorage::Physical),
            storage_class_byte(type_raw) != 0x00 && storage_class_byte(type_raw) != 0x40 ==> (r matches Err(
                ScanError::InvalidObject(m),
            ) && m@ == storage_refusal_text(storage_class_byte(type_raw))),
    {
        let storage_class = (type_raw >> 24u32) & 0xff;
        if storage_class == 0x00 {
            Ok(ExtentRefStorage::Virtual)
        } else if storage_class == 0x40 {
            Ok(ExtentRefStorage::Physical)
        } else {
            let mut msg = owned("extent-reference tree storage class ");
            push_hex_prefixed(&mut msg, storage_class as u64);
            msg.append(" is not supported (expected 0x00 virtual or 0x40 physical)");
            Err(ScanError::InvalidObject(msg))
        }
    }

    /// The storage class its nodes must carry.
    pub fn expected_storage(self) -> (r: ExpectedStorage)
        ensures
            r == storage_of(self),
    {
        match self {
            ExtentRefStorage::Physical => ExpectedStorage::Physical,
            ExtentRefStorage::Virtual => ExpectedStorage::Virtual,
        }
    }
}

pub open spec fn storage_of(s: ExtentRefStorage) -> ExpectedStorage {
    match s {
        ExtentRefStorage::Physical => ExpectedStorage::Physical,
        ExtentRefStorage::Virtual => ExpectedStorage::Virtual,
    }
}

/// One physically allocated extent and its reference count.
#[derive(Debug, Clone, PartialEq, Eq, Structural)]
pub struct PhysExtRecord {
    pub paddr_first: u64,
    pub length_blocks: u64,
    pub kind: u8,
    pub owning_obj_id: u64,
    pub refcnt: i32,
}

/// What the walk of an extent-reference tree reports.
#[derive(Debug, Clone)]
pub struct ExtentRefDump {
    pub root_paddr: u64,
    pub storage_class: &'static str,
    pub leaf_node_count: u32,
    pub index_node_count: u32,
    pub leaf_record_count: u32,
    pub unsupported_record_count: u32,
    pub max_xid: u64,
    pub records: Vec<PhysExtRecord>,
    pub validation_notes: Vec<String>,
}

// ---- the walk, as a function of the image --------------------------------------- //

/// What the walk has gathered so far, and the nodes it has entered.
pub struct ExtWalk {
    pub leaf_nodes: u32,
    pub index_nodes: u32,
    pub leaf_records: u32,
    pub unsupported: u32,
    pub records: Seq<PhysExtRecord>,
    pub notes: Seq<Seq<char>>,
    pub visited: Set<u64>,
}

pub open spec fn empty_ext_walk() -> ExtWalk {
    ExtWalk {
        leaf_nodes: 0,
        index_nodes: 0,
        leaf_records: 0,
        unsupported: 0,
        records: Seq::empty(),
        notes: Seq::empty(),
        visited: Set::empty(),
    }
}

/// The record a `j_phys_ext` key and value describe.
pub open spec fn record_of(k: Seq<u8>, v: Seq<u8>) -> PhysExtRecord {
    let len_and_kind = le64(v, 0) as u64;
    PhysExtRecord {
        paddr_first: (le64(k, 0) as u64) & EXT_OBJECT_ID_MASK,
        length_blocks: len_and_kind & EXT_OBJECT_ID_MASK,
        kind: ((len_and_kind >> 60u64) as u8) & 0xf,
        owning_obj_id: le64(v, 8) as u64,
        refcnt: (le32(v, 16) as u32) as i32,
    }
}

/// The record type of a key.
pub open spec fn ext_raw_type(k: Seq<u8>) -> u8 {
    ((le64(k, 0) as u64) >> 60u64) as u8
}

/// The note recorded for a leaf entry of another record type.
pub open spec fn raw_type_note(paddr: u64, index: u32, raw: u8) -> Seq<char> {
    "extent-reference leaf at node "@ + decimal(paddr as nat) + " entry "@ + decimal(index as nat) + " has raw_type "@
        + hex_prefixed(raw as nat) + " (expected 0x2)"@
}

/// The walk state after the leaf entries of a node from `i` on: a key
/// shorter than `j_phys_ext_key_t`, or an extent record whose value is
/// shorter than `j_phys_ext_val_t`, stops the walk; records of another type
/// are counted and noted.
pub open spec fn ext_leaf(sh: NodeShape, b: Seq<u8>, paddr: u64, i: int, w: ExtWalk) -> Result<ExtWalk, ()>
    decreases sh.nkeys - i,
{
    if i < 0 || i >= sh.nkeys {
        Ok(w)
    } else {
        match shape_entry(sh, b, i as u32) {
            None => Err(()),
            Some(e) => match entry_key(b, e, 0) {
                None => Err(()),
                Some(k) => match entry_value(b, e, 0) {
                    None => Err(()),
                    Some(v) => if k.len() < PHYS_EXT_KEY_SIZE {
                        Err(())
                    } else if ext_raw_type(k) != RAW_TYPE_EXTENT_REFERENCE {
                        ext_leaf(
                            sh,
                            b,
                            paddr,
                            i + 1,
                            ExtWalk {
                                unsupported: w.unsupported.wrapping_add(1),
                                notes: w.notes.push(raw_type_note(paddr, i as u32, ext_raw_type(k))),
                                ..w
                            },
                        )
                    } else if v.len() < PHYS_EXT_VAL_SIZE {
                        Err(())
                    } else {
                        ext_leaf(
                            sh,
                            b,
                            paddr,
                            i + 1,
                            ExtWalk {
                                leaf_records: w.leaf_records.wrapping_add(1),
                                records: w.records.push(record_of(k, v)),
                                ..w
                            },
                        )
                    },
                },
            },
        }
    }
}

/// The child value that internal entry `i` holds.
pub open spec fn ext_child_value(sh: NodeShape, b: Seq<u8>, i: int) -> Option<u64> {
    match shape_entry(sh, b, i as u32) {
        None => None,
        Some(e) => match entry_value(b, e, EXT_INTERNAL_VAL_SIZE) {
            None => None,
            Some(v) => if v.len() < EXT_INTERNAL_VAL_SIZE {
                None
            } else {
                Some(le64(v, 0) as u64)
            },
        },
    }
}

/// Every entry of an internal node holds a child value.
pub open spec fn ext_children_ok(sh: NodeShape, b: Seq<u8>) -> bool {
    forall|i: int| 0 <= i < sh.nkeys ==> #[trigger] ext_child_value(sh, b, i) is Some
}

/// The walk state after the subtree at `paddr`, with `depth` more levels
/// allowed.
pub open spec fn ext_walk(
    image: Seq<u8>,
    bs: usize,
    omap: OmapResolver,
    storage: ExtentRefStorage,
    paddr: u64,
    is_root: bool,
    w: ExtWalk,
    max_xid: u64,
    depth: nat,
) -> Result<ExtWalk, ()>
    decreases depth, 0x1_0000_0002int,
{
    if depth == 0 || w.visited.contains(paddr) {
        Err(())
    } else {
        let w1 = ExtWalk { visited: w.visited.insert(paddr), ..w };
        match node_block(image, bs, paddr, node_expectation(is_root, storage_of(storage), Some(max_xid))) {
            None => Err(()),
            Some(b) => if node_parse_fails(b, bs as int) {
                Err(())
            } else {
                let sh = shape_of(b, bs);
                if sh.fixed_kv_size {
                    Err(())
                } else if sh.is_leaf {
                    ext_leaf(sh, b, paddr, 0, ExtWalk { leaf_nodes: w1.leaf_nodes.wrapping_add(1), ..w1 })
                } else if !ext_children_ok(sh, b) {
                    Err(())
                } else {
                    ext_children(
                        image,
                        bs,
                        omap,
                        storage,
                        sh,
                        b,
                        0,
                        ExtWalk { index_nodes: w1.index_nodes.wrapping_add(1), ..w1 },
                        max_xid,
                        depth,
                    )
                }
            },
        }
    }
}

/// The block address of a child value: itself in a physical tree, the
/// object map's mapping of it at `max_xid` in a virtual one.
pub open spec fn child_address(
    image: Seq<u8>,
    bs: usize,
    omap: OmapResolver,
    storage: ExtentRefStorage,
    value: u64,
    max_xid: u64,
) -> Option<u64> {
    match storage {
        ExtentRefStorage::Physical => Some(value),
        ExtentRefStorage::Virtual => match omap.lookup_spec(image, bs, value, max_xid) {
            Some(Ok(Some(m))) => Some(m.paddr),
            _ => None,
        },
    }
}

/// The walk state after the children of an internal node from entry `i`
/// on, each walked with one level less.
pub open spec fn ext_children(
    image: Seq<u8>,
    bs: usize,
    omap: OmapResolver,
    storage: ExtentRefStorage,
    sh: NodeShape,
    b: Seq<u8>,
    i: int,
    w: ExtWalk,
    max_xid: u64,
    depth: nat,
) -> Result<ExtWalk, ()>
    decreases depth, sh.nkeys - i,
{
    if i < 0 || i >= sh.nkeys || depth == 0 {
        Ok(w)
    } else {
        match ext_child_value(sh, b, i) {
            None => Err(()),
            Some(value) => match child_address(image, bs, omap, storage, value, max_xid) {
                None => Err(()),
                Some(addr) => match ext_walk(image, bs, omap, storage, addr, false, w, max_xid, (depth - 1) as nat) {
                    Err(()) => Err(()),
                    Ok(w2) => ext_children(image, bs, omap, storage, sh, b, i + 1, w2, max_xid, depth),
                },
            },
        }
    }
}

/// `d` reports the finished walk `w` of the tree at `root_paddr`.
pub open spec fn ext_dump_matches(
    d: ExtentRefDump,
    w: ExtWalk,
    root_paddr: u64,
    storage: ExtentRefStorage,
    max_xid: u64,
) -> bool {
    &&& d.root_paddr == root_paddr
    &&& d.storage_class@ == match storage {
        ExtentRefStorage::Physical => "physical"@,
        ExtentRefStorage::Virtual => "virtual"@,
    }
    &&& d.leaf_node_count == w.leaf_nodes
    &&& d.index_node_count == w.index_nodes
    &&& d.leaf_record_count == w.leaf_records
    &&& d.unsupported_record_count == w.unsupported
    &&& d.max_xid == max_xid
    &&& d.records@ == w.records
    &&& d.validation_notes@.map_values(|s: String| s@) == w.notes
}

// ---- the walk ----------------------------------------------------------------- //

struct ExtState {
    leaf_node_count: u32,
    index_node_count: u32,
    leaf_record_count: u32,
    unsupported_record_count: u32,
    records: Vec<PhysExtRecord>,
    validation_notes: Vec<String>,
    visited: HashSet<u64>,
}

spec fn ext_state_matches(st: &ExtState, w: ExtWalk) -> bool {
    &&& st.leaf_node_count == w.leaf_nodes
    &&& st.index_node_count == w.index_nodes
    &&& st.leaf_record_count == w.leaf_records
    &&& st.unsupported_record_count == w.unsupported
    &&& st.records@ == w.records
    &&& st.validation_notes@.map_values(|s: String| s@) == w.notes
    &&& st.visited@ == w.visited
}

fn visit_ext_leaf(state: &mut ExtState, node: &BtreeNode, paddr: u64, Ghost(w0): Ghost<ExtWalk>) -> (r: Result<(), ScanError>)
    requires
        node.wf(),
        ext_state_matches(old(state), w0),
    ensures
        match ext_leaf(node.shape(), node.block@, paddr, 0, w0) {
            Ok(w) => r is Ok && ext_state_matches(final(state), w),
            Err(_) => r is Err,
        },
{
    let ghost sh = node.shape();
    let ghost b = node.block@;
    let ghost target = ext_leaf(sh, b, paddr, 0, w0);
    let ghost mut w = w0;
    let mut index: u32 = 0;
    while index < node.nkeys
        invariant
            node.wf(),
            sh == node.shape(),
            b == node.block@,
            index <= node.nkeys,
            target == ext_leaf(sh, b, paddr, 0, w0),
            target == ext_leaf(sh, b, paddr, index as int, w),
            ext_state_matches(state, w),
        decreases node.nkeys - index,
    {
        let entry = node.entry(index)?;
        let key = node.key_bytes(&entry, 0)?;
        let value = node.value_bytes(&entry, 0)?;
        if key.len() < PHYS_EXT_KEY_SIZE {
            let mut msg = msg_num("extent-reference leaf key at node ", paddr, " entry ");
            push_decimal(&mut msg, index as u64);
            msg.append(" shorter than j_phys_ext_key_t (8 bytes)");
            return Err(ScanError::InvalidObject(msg));
        }
        let key_word = le_u64(key, 0);
        let paddr_first = key_word & EXT_OBJECT_ID_MASK;
        let raw_type = (key_word >> 60u64) as u8;
        if raw_type != RAW_TYPE_EXTENT_REFERENCE {
            state.unsupported_record_count = state.unsupported_record_count.wrapping_add(1);
            let mut note = msg_num("extent-reference leaf at node ", paddr, " entry ");
            push_decimal(&mut note, index as u64);
            note.append(" has raw_type ");
            push_hex_prefixed(&mut note, raw_type as u64);
            note.append(" (expected 0x2)");
            let ghost before = state.validation_notes@;
            state.validation_notes.push(note);
            proof {
                assert(state.validation_notes@.map_values(|s: String| s@) =~= before.map_values(|s: String| s@).push(
                    raw_type_note(paddr, index, raw_type),
                ));
                w = ExtWalk {
                    unsupported: w.unsupported.wrapping_add(1),
                    notes: w.notes.push(raw_type_note(paddr, index, raw_type)),
                    ..w
                };
            }
            index = index + 1;
            continue;
        }
        if value.len() < PHYS_EXT_VAL_SIZE {
            let mut msg = msg_num("extent-reference leaf value at node ", paddr, " entry ");
            push_decimal(&mut msg, index as u64);
            msg.append(" shorter than j_phys_ext_val_t (20 bytes), got ");
            push_decimal(&mut msg, value.len() as u64);
            return Err(ScanError::InvalidObject(msg));
        }
        let len_and_kind = le_u64(value, 0);
        let record = PhysExtRecord {
            paddr_first,
            length_blocks: len_and_kind & EXT_OBJECT_ID_MASK,
            kind: ((len_and_kind >> 60u64) as u8) & 0xf,
            owning_obj_id: le_u64(value, 8),
            refcnt: le_u32(value, 16) as i32,
        };
        assert(record == record_of(key@, value@));
        state.leaf_record_count = state.leaf_record_count.wrapping_add(1);
        state.records.push(record);
        proof {
            w = ExtWalk {
                leaf_records: w.leaf_records.wrapping_add(1),
                records: w.records.push(record_of(key@, value@)),
                ..w
            };
        }
        index = index + 1;
    }
    Ok(())
}

/// The child value internal entry `index` holds.
fn ext_child(node: &BtreeNode, paddr: u64, index: u32) -> (r: Result<u64, ScanError>)
    requires
        node.wf(),
    ensures
        match ext_child_value(node.shape(), node.block@, index as int) {
            Some(c) => r == Ok::<u64, ScanError>(c),
            None => r is Err,
        },
{
    let entry = node.entry(index)?;
    let value = node.value_bytes(&entry, EXT_INTERNAL_VAL_SIZE)?;
    if value.len() < EXT_INTERNAL_VAL_SIZE {
        let mut msg = msg_num("extent-reference internal value at ", paddr, " entry ");
        push_decimal(&mut msg, index as u64);
        msg.append(" shorter than child oid");
        return Err(ScanError::InvalidObject(msg));
    }
    Ok(le_u64(value, 0))
}

/// The child values of all entries of an internal node, or an error when
/// one does not decode.
fn collect_child_values(node: &BtreeNode, paddr: u64) -> (r: Result<Vec<u64>, ScanError>)
    requires
        node.wf(),
    ensures
        match r {
            Ok(c) => ext_children_ok(node.shape(), node.block@) && c@.len() == node.nkeys && forall|k: int|
                0 <= k < node.nkeys ==> ext_child_value(node.shape(), node.block@, k) == Some(#[trigger] c@[k]),
            Err(_) => !ext_children_ok(node.shape(), node.block@),
        },
{
    let ghost sh = node.shape();
    let ghost b = node.block@;
    let mut children: Vec<u64> = Vec::new();
    let mut index: u32 = 0;
    while index < node.nkeys
        invariant
            node.wf(),
            sh == node.shape(),
            b == node.block@,
            index <= node.nkeys,
            children@.len() == index,
            forall|k: int| 0 <= k < index ==> ext_child_value(sh, b, k) == Some(#[trigger] children@[k]),
        decreases node.nkeys - index,
    {
        let c = ext_child(node, paddr, index)?;
        children.push(c);
        index = index + 1;
    }
    assert forall|i: int| 0 <= i < sh.nkeys implies #[trigger] ext_child_value(sh, b, i) is Some by {
        assert(ext_child_value(sh, b, i) == Some(children@[i]));
    }
    Ok(children)
}

proof fn lemma_ext_children_step(
    image: Seq<u8>,
    bs: usize,
    omap: OmapResolver,
    storage: ExtentRefStorage,
    sh: NodeShape,
    b: Seq<u8>,
    i: int,
    w: ExtWalk,
    max_xid: u64,
    depth: nat,
)
    requires
        0 <= i < sh.nkeys,
        depth > 0,
    ensures
        match ext_child_value(sh, b, i) {
            None => ext_children(image, bs, omap, storage, sh, b, i, w, max_xid, depth) is Err,
            Some(value) => match child_address(image, bs, omap, storage, value, max_xid) {
                None => ext_children(image, bs, omap, storage, sh, b, i, w, max_xid, depth) is Err,
                Some(addr) => ext_children(image, bs, omap, storage, sh, b, i, w, max_xid, depth) == match ext_walk(
                    image,
                    bs,
                    omap,
                    storage,
                    addr,
                    false,
                    w,
                    max_xid,
                    (depth - 1) as nat,
                ) {
                    Err(()) => Err(()),
                    Ok(w2) => ext_children(image, bs, omap, storage, sh, b, i + 1, w2, max_xid, depth),
                },
            },
        },
{
}

#[verifier::rlimit(60)]
fn walk_ext_node(
    state: &mut ExtState,
    image: &[u8],
    block_size: usize,
    storage: ExtentRefStorage,
    paddr: u64,
    is_root: bool,
    max_xid: u64,
    omap: &OmapResolver,
    depth: usize,
    Ghost(w0): Ghost<ExtWalk>,
) -> (r: Result<(), ScanError>)
    requires
        block_size >= 0x2c,
        depth <= MAX_TREE_DEPTH,
        ext_state_matches(old(state), w0),
    ensures
        match ext_walk(image@, block_size, *omap, storage, paddr, is_root, w0, max_xid, (MAX_TREE_DEPTH - depth) as nat) {
            Ok(w) => r is Ok && ext_state_matches(final(state), w),
            Err(_) => r is Err,
        },
    decreases MAX_TREE_DEPTH - depth,
{
    if depth >= MAX_TREE_DEPTH {
        let mut msg = owned("extent-reference tree depth exceeded 128 at paddr ");
        push_decimal(&mut msg, paddr);
        return Err(ScanError::InvalidObject(msg));
    }
    let ghost target = ext_walk(image@, block_size, *omap, storage, paddr, is_root, w0, max_xid, (MAX_TREE_DEPTH - depth) as nat);
    if !state.visited.insert(paddr) {
        return Err(ScanError::InvalidObject(msg_num("extent-reference tree cycle detected at paddr ", paddr, "")));
    }
    let ghost w1 = ExtWalk { visited: w0.visited.insert(paddr), ..w0 };
    let (block, _header) = match read_btree_node(
        image,
        block_size,
        paddr,
        is_root,
        storage.expected_storage(),
        Some(max_xid),
    ) {
        Ok(pair) => pair,
        Err(e) => {
            return Err(e);
        },
    };
    let node = match BtreeNode::parse(block.as_slice(), block_size) {
        Ok(n) => n,
        Err(e) => {
            return Err(e);
        },
    };
    if node.fixed_kv_size {
        return Err(ScanError::InvalidObject(owned("extent-reference tree node should not be fixed-kv-size")));
    }
    let ghost sh = node.shape();
    let ghost b = block@;
    if node.is_leaf {
        state.leaf_node_count = state.leaf_node_count.wrapping_add(1);
        let ghost w2 = ExtWalk { leaf_nodes: w1.leaf_nodes.wrapping_add(1), ..w1 };
        assert(target == ext_leaf(sh, b, paddr, 0, w2));
        return visit_ext_leaf(state, &node, paddr, Ghost(w2));
    }
    state.index_node_count = state.index_node_count.wrapping_add(1);
    let ghost w2 = ExtWalk { index_nodes: w1.index_nodes.wrapping_add(1), ..w1 };
    let children = match collect_child_values(&node, paddr) {
        Ok(c) => c,
        Err(e) => {
            return Err(e);
        },
    };
    let ghost remaining = (MAX_TREE_DEPTH - depth) as nat;
    assert(target == ext_children(image@, block_size, *omap, storage, sh, b, 0, w2, max_xid, remaining));
    let ghost mut w = w2;
    let mut index: u32 = 0;
    while index < node.nkeys
        invariant
            node.wf(),
            block_size >= 0x2c,
            depth < MAX_TREE_DEPTH,
            remaining == (MAX_TREE_DEPTH - depth) as nat,
            sh == node.shape(),
            b == node.block@,
            index <= node.nkeys,
            children@.len() == node.nkeys,
            forall|k: int| 0 <= k < node.nkeys ==> ext_child_value(sh, b, k) == Some(#[trigger] children@[k]),
            target == ext_walk(image@, block_size, *omap, storage, paddr, is_root, w0, max_xid, remaining),
            target == ext_children(image@, block_size, *omap, storage, sh, b, index as int, w, max_xid, remaining),
            ext_state_matches(state, w),
        decreases node.nkeys - index,
    {
        let child = children[index as usize];
        proof {
            lemma_ext_children_step(image@, block_size, *omap, storage, sh, b, index as int, w, max_xid, remaining);
            assert(ext_child_value(sh, b, index as int) == Some(child));
        }
        let child_paddr = match storage {
            ExtentRefStorage::Physical => child,
            ExtentRefStorage::Virtual => {
                match omap.lookup(image, block_size, child, max_xid) {
                    Ok(Some(m)) => m.paddr,
                    Ok(None) => {
                        let mut msg = msg_num("extent-reference internal entry at ", paddr, "/");
                        push_decimal(&mut msg, index as u64);
                        msg.append(" child oid ");
                        push_decimal(&mut msg, child);
                        msg.append(" not resolvable in volume OMAP at max_xid ");
                        push_decimal(&mut msg, max_xid);
                        return Err(ScanError::InvalidObject(msg));
                    },
                    Err(e) => {
                        return Err(e);
                    },
                }
            },
        };
        assert(child_address(image@, block_size, *omap, storage, child, max_xid) == Some(child_paddr));
        let ghost next = ext_walk(image@, block_size, *omap, storage, child_paddr, false, w, max_xid, (remaining - 1) as nat);
        walk_ext_node(state, image, block_size, storage, child_paddr, false, max_xid, omap, depth + 1, Ghost(w))?;
        proof {
            w = next->Ok_0;
        }
        index = index + 1;
    }
    Ok(())
}

/// Walks the extent-reference tree at `root_paddr` and lists its extent
/// records.
///
/// In a virtual tree, child ids are resolved through `volume_omap` at
/// `max_xid`. The walk fails exactly when [`ext_walk`] does: a node that
/// does not read or validate, an entry that does not decode, a child that
/// does not resolve, a node entered twice, or a path deeper than
/// `MAX_TREE_DEPTH`.
pub fn dump_extent_refs(
    image: &[u8],
    block_size: usize,
    root_paddr: u64,
    storage: ExtentRefStorage,
    max_xid: u64,
    volume_omap: &OmapResolver,
) -> (r: Result<ExtentRefDump, ScanError>)
    requires
        block_size >= 0x2c,
    ensures
        match ext_walk(
            image@,
            block_size,
            *volume_omap,
            storage,
            root_paddr,
            true,
            empty_ext_walk(),
            max_xid,
            MAX_TREE_DEPTH as nat,
        ) {
            Ok(w) => r matches Ok(d) && ext_dump_matches(d, w, root_paddr, storage, max_xid),
            Err(_) => r is Err,
        },
{
    let mut state = ExtState {
        leaf_node_count: 0,
        index_node_count: 0,
        leaf_record_count: 0,
        unsupported_record_count: 0,
        records: Vec::new(),
        validation_notes: Vec::new(),
        visited: HashSet::new(),
    };
    proof {
        assert(state.validation_notes@.map_values(|s: String| s@) =~= Seq::<Seq<char>>::empty());
        assert(state.records@ =~= Seq::<PhysExtRecord>::empty());
    }
    walk_ext_node(&mut state, image, block_size, storage, root_paddr, true, max_xid, volume_omap, 0, Ghost(empty_ext_walk()))?;
    let storage_class: &'static str = match storage {
        ExtentRefStorage::Physical => "physical",
        ExtentRefStorage::Virtual => "virtual",
    };
    Ok(ExtentRefDump {
        root_paddr,
        storage_class,
        leaf_node_count: state.leaf_node_count,
        index_node_count: state.index_node_count,
        leaf_record_count: state.leaf_record_count,
        unsupported_record_count: state.unsupported_record_count,
        max_xid,
        records: state.records,
        validation_notes: state.validation_notes,
    })
}

} // verus!
