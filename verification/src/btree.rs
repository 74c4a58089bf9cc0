//! Read-only APFS B-tree node reader.
//!
//! Every APFS B-tree (object map, FS tree, extent-reference tree) shares
//! one node layout, so this module only walks the node structure and hands
//! out bounds-checked key and value byte ranges. Interpretation of keys and
//! values lives with each tree's reader.

use vstd::prelude::*;

use crate::block_io::{le16, le32, le_u16, le_u32, read_block};
use crate::object::{
    object_rejection, spec_header, validate_object_block, ExpectedStorage, ObjectExpectation,
    ObjectHeader, OBJECT_TYPE_BTREE, OBJECT_TYPE_BTREE_NODE, OBJ_HEADER_SIZE,
};
use crate::text::{msg_num2, owned, push_decimal};
use crate::ScanError;

verus! {

pub const BTNODE_ROOT: u16 = 0x0001;
pub const BTNODE_LEAF: u16 = 0x0002;
pub const BTNODE_FIXED_KV_SIZE: u16 = 0x0004;
/// Size of the `btree_info_t` trailer that root nodes carry.
pub const BTREE_INFO_SIZE: usize = 40;
/// Offset of the table of contents' base: object header plus the fixed
/// part of `btree_node_phys_t`.
pub const BTREE_DATA_OFFSET: usize = 56;

/// A parsed B-tree node borrowing its block.
#[derive(Debug, Clone, Copy)]
pub struct BtreeNode<'a> {
    /// Whole block backing this node; key and value byte ranges borrow
    /// from it.
    pub block: &'a [u8],
    pub block_size: usize,
    pub flags: u16,
    pub level: u16,
    pub nkeys: u32,
    pub data_offset: usize,
    pub toc_offset: usize,
    pub toc_len: u16,
    pub key_area_offset: usize,
    pub value_area_end: usize,
    pub fixed_kv_size: bool,
    pub is_root: bool,
    pub is_leaf: bool,
}

/// Where one entry's key and value sit in the node's block. A `None`
/// length means the tree's fixed key or value size applies.
#[derive(Debug, Clone, Copy, PartialEq, Eq, Structural)]
pub struct BtreeEntry {
    pub key_offset: usize,
    pub key_len: Option<usize>,
    pub value_start: usize,
    pub value_len: Option<usize>,
}

/// Why a node block does not parse, or `None` when it does.
pub open spec fn node_parse_fails(block: Seq<u8>, block_size: int) -> bool {
    let flags = le16(block, 0x20) as u16;
    let key_area = BTREE_DATA_OFFSET + le16(block, 0x28) + le16(block, 0x2a);
    let is_root = flags & BTNODE_ROOT != 0;
    ||| block.len() < block_size
    ||| (is_root && block_size < BTREE_INFO_SIZE)
    ||| key_area > (if is_root { block_size - BTREE_INFO_SIZE } else { block_size })
}

/// The decoded fields of a node, without the block it borrows.
pub struct NodeShape {
    pub block_size: usize,
    pub flags: u16,
    pub level: u16,
    pub nkeys: u32,
    pub toc_offset: usize,
    pub toc_len: u16,
    pub key_area_offset: usize,
    pub value_area_end: usize,
    pub fixed_kv_size: bool,
    pub is_root: bool,
    pub is_leaf: bool,
}

/// The fields that `parse` decodes from `s`.
pub open spec fn shape_of(s: Seq<u8>, block_size: usize) -> NodeShape {
    let flags = le16(s, 0x20) as u16;
    let toc_offset = (BTREE_DATA_OFFSET + le16(s, 0x28)) as usize;
    let toc_len = le16(s, 0x2a) as u16;
    let is_root = flags & BTNODE_ROOT != 0;
    NodeShape {
        block_size,
        flags,
        level: le16(s, 0x22) as u16,
        nkeys: le32(s, 0x24) as u32,
        toc_offset,
        toc_len,
        key_area_offset: (toc_offset + toc_len) as usize,
        value_area_end: if is_root { (block_size - BTREE_INFO_SIZE) as usize } else { block_size },
        fixed_kv_size: flags & BTNODE_FIXED_KV_SIZE != 0,
        is_root,
        is_leaf: flags & BTNODE_LEAF != 0,
    }
}

/// The entry at `index` of a node with fields `sh` over block bytes `s`, or
/// `None` when its TOC slot or offsets are out of range.
pub open spec fn shape_entry(sh: NodeShape, s: Seq<u8>, index: u32) -> Option<BtreeEntry> {
    if index >= sh.nkeys {
        None
    } else if sh.fixed_kv_size {
        let entry_off = sh.toc_offset + 4 * index;
        let k_off = le16(s, entry_off);
        let v_off = le16(s, entry_off + 2);
        if 4 * index + 4 > sh.toc_len {
            None
        } else if sh.key_area_offset + k_off > usize::MAX {
            None
        } else if v_off > sh.value_area_end {
            None
        } else {
            Some(
                BtreeEntry {
                    key_offset: (sh.key_area_offset + k_off) as usize,
                    key_len: None,
                    value_start: (sh.value_area_end - v_off) as usize,
                    value_len: None,
                },
            )
        }
    } else {
        let entry_off = sh.toc_offset + 8 * index;
        let k_off = le16(s, entry_off);
        let k_len = le16(s, entry_off + 2);
        let v_off = le16(s, entry_off + 4);
        let v_len = le16(s, entry_off + 6);
        if 8 * index + 8 > sh.toc_len {
            None
        } else if sh.key_area_offset + k_off > usize::MAX {
            None
        } else if v_off > sh.value_area_end {
            None
        } else {
            Some(
                BtreeEntry {
                    key_offset: (sh.key_area_offset + k_off) as usize,
                    key_len: Some(k_len as usize),
                    value_start: (sh.value_area_end - v_off) as usize,
                    value_len: Some(v_len as usize),
                },
            )
        }
    }
}

/// The key bytes of `e` (`fixed` when the entry has no own length), or
/// `None` when they leave the block.
pub open spec fn entry_key(s: Seq<u8>, e: BtreeEntry, fixed: usize) -> Option<Seq<u8>> {
    let len = match e.key_len {
        Some(l) => l as int,
        None => fixed as int,
    };
    if e.key_offset + len <= s.len() {
        Some(s.subrange(e.key_offset as int, e.key_offset + len))
    } else {
        None
    }
}

/// The value bytes of `e` (`fixed` when the entry has no own length), or
/// `None` when they leave the block.
pub open spec fn entry_value(s: Seq<u8>, e: BtreeEntry, fixed: usize) -> Option<Seq<u8>> {
    let len = match e.value_len {
        Some(l) => l as int,
        None => fixed as int,
    };
    if e.value_start + len <= s.len() {
        Some(s.subrange(e.value_start as int, e.value_start + len))
    } else {
        None
    }
}

/// Whether the shape satisfies the layout facts `parse` checks.
pub open spec fn shape_wf(sh: NodeShape, len: int) -> bool {
    &&& sh.toc_offset + sh.toc_len == sh.key_area_offset
    &&& sh.key_area_offset <= sh.value_area_end
    &&& sh.value_area_end <= sh.block_size
    &&& sh.block_size <= len
}

impl<'a> BtreeNode<'a> {
    /// The node's decoded fields.
    pub open spec fn shape(&self) -> NodeShape {
        NodeShape {
            block_size: self.block_size,
            flags: self.flags,
            level: self.level,
            nkeys: self.nkeys,
            toc_offset: self.toc_offset,
            toc_len: self.toc_len,
            key_area_offset: self.key_area_offset,
            value_area_end: self.value_area_end,
            fixed_kv_size: self.fixed_kv_size,
            is_root: self.is_root,
            is_leaf: self.is_leaf,
        }
    }

    /// The layout facts that `parse` establishes and the entry decoder
    /// relies on.
    pub open spec fn wf(&self) -> bool {
        shape_wf(self.shape(), self.block@.len() as int)
    }

    /// Parses the `btree_node_phys_t` fields of `block`.
    ///
    /// Fails with `InvalidObject` when the block is shorter than
    /// `block_size`, when a root node has no room for its info trailer, or
    /// when the key area would start past the value area.
    pub fn parse(block: &'a [u8], block_size: usize) -> (r: Result<Self, ScanError>)
        requires
            block@.len() >= 0x2c,
        ensures
            node_parse_fails(block@, block_size as int) ==> r matches Err(ScanError::InvalidObject(_)),
            !node_parse_fails(block@, block_size as int) ==> (r matches Ok(n) && n.block == block && n.shape() == shape_of(block@, block_size) && n.data_offset == BTREE_DATA_OFFSET && n.wf()),
    {
        if block.len() < block_size {
            return Err(ScanError::InvalidObject(owned("btree node block shorter than block_size")));
        }
        let flags = le_u16(block, 0x20);
        let level = le_u16(block, 0x22);
        let nkeys = le_u32(block, 0x24);
        let toc_off_rel = le_u16(block, 0x28);
        let toc_len = le_u16(block, 0x2a);
        let data_offset = BTREE_DATA_OFFSET;
        let toc_offset = data_offset + toc_off_rel as usize;
        let key_area_offset = toc_offset + toc_len as usize;
        let is_root = flags & BTNODE_ROOT != 0;
        let value_area_end = if is_root {
            if block_size < BTREE_INFO_SIZE {
                return Err(ScanError::InvalidObject(owned("root btree node too small")));
            }
            block_size - BTREE_INFO_SIZE
        } else {
            block_size
        };
        if key_area_offset > value_area_end {
            return Err(ScanError::InvalidObject(owned("btree key area overlaps value area")));
        }
        Ok(BtreeNode {
            block,
            block_size,
            flags,
            level,
            nkeys,
            data_offset,
            toc_offset,
            toc_len,
            key_area_offset,
            value_area_end,
            fixed_kv_size: flags & BTNODE_FIXED_KV_SIZE != 0,
            is_root,
            is_leaf: flags & BTNODE_LEAF != 0,
        })
    }

    /// The entry at `index`, or `None` when its TOC slot or offsets are out
    /// of range.
    pub open spec fn entry_of(self, index: u32) -> Option<BtreeEntry> {
        shape_entry(self.shape(), self.block@, index)
    }

    /// Decodes the table-of-contents entry `index`.
    pub fn entry(&self, index: u32) -> (r: Result<BtreeEntry, ScanError>)
        requires
            self.wf(),
        ensures
            self.entry_of(index) matches Some(e) ==> r == Ok::<BtreeEntry, ScanError>(e),
            self.entry_of(index) is None ==> r matches Err(ScanError::InvalidObject(_)),
    {
        if index >= self.nkeys {
            return Err(ScanError::InvalidObject(msg_num2(
                "btree entry index ",
                index as u64,
                " out of range (nkeys=",
                self.nkeys as u64,
                ")",
            )));
        }
        if self.fixed_kv_size {
            self.fixed_entry(index)
        } else {
            self.variable_entry(index)
        }
    }

    fn fixed_entry(&self, index: u32) -> (r: Result<BtreeEntry, ScanError>)
        requires
            self.wf(),
            index < self.nkeys,
            self.fixed_kv_size,
        ensures
            self.entry_of(index) matches Some(e) ==> r == Ok::<BtreeEntry, ScanError>(e),
            self.entry_of(index) is None ==> r matches Err(ScanError::InvalidObject(_)),
    {
        if 4 * (index as u64) + 4 > self.toc_len as u64 {
            return Err(ScanError::InvalidObject(owned("btree fixed TOC entry past TOC length")));
        }
        let entry_off = self.toc_offset + 4 * (index as usize);
        let k_off = le_u16(self.block, entry_off) as usize;
        let v_off = le_u16(self.block, entry_off + 2) as usize;
        let key_start = match self.key_area_offset.checked_add(k_off) {
            Some(k) => k,
            None => {
                return Err(ScanError::InvalidObject(owned("btree fixed key offset overflow")));
            },
        };
        // `v_off` measures the distance from the end of the value area back
        // to the start of the value.
        if v_off > self.value_area_end {
            return Err(ScanError::InvalidObject(owned("btree fixed value offset underflow")));
        }
        Ok(BtreeEntry {
            key_offset: key_start,
            key_len: None,
            value_start: self.value_area_end - v_off,
            value_len: None,
        })
    }

    fn variable_entry(&self, index: u32) -> (r: Result<BtreeEntry, ScanError>)
        requires
            self.wf(),
            index < self.nkeys,
            !self.fixed_kv_size,
        ensures
            self.entry_of(index) matches Some(e) ==> r == Ok::<BtreeEntry, ScanError>(e),
            self.entry_of(index) is None ==> r matches Err(ScanError::InvalidObject(_)),
    {
        if 8 * (index as u64) + 8 > self.toc_len as u64 {
            return Err(ScanError::InvalidObject(owned("btree variable TOC entry past TOC length")));
        }
        let entry_off = self.toc_offset + 8 * (index as usize);
        let k_off = le_u16(self.block, entry_off) as usize;
        let k_len = le_u16(self.block, entry_off + 2) as usize;
        let v_off = le_u16(self.block, entry_off + 4) as usize;
        let v_len = le_u16(self.block, entry_off + 6) as usize;
        let key_start = match self.key_area_offset.checked_add(k_off) {
            Some(k) => k,
            None => {
                return Err(ScanError::InvalidObject(owned("btree variable key offset overflow")));
            },
        };
        if v_off > self.value_area_end {
            return Err(ScanError::InvalidObject(owned("btree variable value offset underflow")));
        }
        Ok(BtreeEntry {
            key_offset: key_start,
            key_len: Some(k_len),
            value_start: self.value_area_end - v_off,
            value_len: Some(v_len),
        })
    }

    /// The key's byte range: `key_len` bytes (or `fixed_key_size` for
    /// fixed-size trees) starting at `key_offset`. Fails with
    /// `InvalidObject` when the range leaves the block.
    pub fn key_bytes(&self, entry: &BtreeEntry, fixed_key_size: usize) -> (r: Result<
        &'a [u8],
        ScanError,
    >)
        ensures
            entry_key(self.block@, *entry, fixed_key_size) matches Some(k) ==> (r matches Ok(s)
                && s@ == k),
            entry_key(self.block@, *entry, fixed_key_size) is None ==> r matches Err(
                ScanError::InvalidObject(_),
            ),
    {
        let _block_len = self.block.len();
        let len = match entry.key_len {
            Some(l) => l,
            None => fixed_key_size,
        };
        let end = match entry.key_offset.checked_add(len) {
            Some(e) => e,
            None => {
                return Err(ScanError::InvalidObject(owned("btree key end overflow")));
            },
        };
        if end > self.block.len() {
            let mut m = msg_num2("btree key bytes [", entry.key_offset as u64, "..", end as u64, "] exceed block length ");
            push_decimal(&mut m, self.block.len() as u64);
            return Err(ScanError::InvalidObject(m));
        }
        Ok(&self.block[entry.key_offset..end])
    }

    /// The value's byte range: `value_len` bytes (or `fixed_value_size`)
    /// starting at `value_start`. Fails with `InvalidObject` when the range
    /// leaves the block.
    pub fn value_bytes(&self, entry: &BtreeEntry, fixed_value_size: usize) -> (r: Result<
        &'a [u8],
        ScanError,
    >)
        ensures
            entry_value(self.block@, *entry, fixed_value_size) matches Some(v) ==> (r matches Ok(s)
                && s@ == v),
            entry_value(self.block@, *entry, fixed_value_size) is None ==> r matches Err(
                ScanError::InvalidObject(_),
            ),
    {
        let _block_len = self.block.len();
        let len = match entry.value_len {
            Some(l) => l,
            None => fixed_value_size,
        };
        let end = match entry.value_start.checked_add(len) {
            Some(e) => e,
            None => {
                return Err(ScanError::InvalidObject(owned("btree value end overflow")));
            },
        };
        if end > self.block.len() {
            let mut m = msg_num2("btree value bytes [", entry.value_start as u64, "..", end as u64, "] exceed block length ");
            push_decimal(&mut m, self.block.len() as u64);
            return Err(ScanError::InvalidObject(m));
        }
        Ok(&self.block[entry.value_start..end])
    }
}

/// The header a B-tree node read must carry: `OBJECT_TYPE_BTREE` for the
/// root, `OBJECT_TYPE_BTREE_NODE` otherwise, in the caller's storage class,
/// with `o_oid == paddr` required exactly for physical trees.
pub open spec fn node_expectation(
    is_root: bool,
    storage: ExpectedStorage,
    max_xid: Option<u64>,
) -> ObjectExpectation {
    ObjectExpectation {
        object_type: if is_root { OBJECT_TYPE_BTREE } else { OBJECT_TYPE_BTREE_NODE },
        storage,
        max_xid,
        require_oid_eq_paddr: storage == ExpectedStorage::Physical,
    }
}

/// The block at `paddr` when it can be read and its header passes `e`.
pub open spec fn node_block(image: Seq<u8>, bs: usize, paddr: u64, e: ObjectExpectation) -> Option<
    Seq<u8>,
> {
    if paddr * bs > u64::MAX || paddr * bs + bs > image.len() {
        None
    } else {
        let b = image.subrange(paddr * bs, paddr * bs + bs);
        if object_rejection(b, paddr, e) is None {
            Some(b)
        } else {
            None
        }
    }
}

/// Reads the node block at `paddr` and validates its object header.
pub fn read_btree_node(
    image: &[u8],
    block_size: usize,
    paddr: u64,
    is_root: bool,
    storage: ExpectedStorage,
    max_xid: Option<u64>,
) -> (r: Result<(Vec<u8>, ObjectHeader), ScanError>)
    requires
        block_size >= OBJ_HEADER_SIZE,
    ensures
        node_block(image@, block_size, paddr, node_expectation(is_root, storage, max_xid)) matches Some(
            b,
        ) ==> (r matches Ok((v, h)) && v@ == b && h == spec_header(b, paddr)),
        node_block(image@, block_size, paddr, node_expectation(is_root, storage, max_xid)) is None
            ==> r is Err,
{
    let block = read_block(image, paddr, block_size)?;
    let expected_type = if is_root { OBJECT_TYPE_BTREE } else { OBJECT_TYPE_BTREE_NODE };
    let require_oid_eq_paddr = match storage {
        ExpectedStorage::Physical => true,
        _ => false,
    };
    let header = validate_object_block(
        block.as_slice(),
        paddr,
        ObjectExpectation { object_type: expected_type, storage, max_xid, require_oid_eq_paddr },
    )?;
    Ok((block, header))
}

} // verus!
