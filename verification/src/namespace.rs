//! Namespace entries and per-directory aggregates from the decoded records
//! of one volume's FS-tree.
//!
//! Logical size: a compressed regular file (one with a
//! `com.apple.decmpfs` attribute) takes the inode's `uncompressed_size`
//! when `INODE_HAS_UNCOMPRESSED_SIZE` is set, else the size in the decmpfs
//! header; a symlink takes the byte length of its target without trailing
//! NULs; any other regular file takes its data stream's `size`; everything
//! else is zero. Names are kept exactly as stored.
//!
//! Allocated size: a regular file with a data stream and no sparse-bytes
//! field takes `alloced_size`; with sparse bytes, `alloced_size` minus
//! them (saturating at zero); a compressed regular file takes the sum of
//! its primary stream and the streams of its decmpfs and resource-fork
//! attributes; symlinks and directories take zero; anything else has
//! none. A directory's aggregate counts each file inode under it once, and
//! its allocated total is absent when any contributing inode's is.

use std::collections::{HashMap, HashSet};

use vstd::prelude::*;
use vstd::utf8::{encode_utf8, is_ascii_chars, is_ascii_chars_encode_utf8};

use crate::block_io::le64;
use crate::fs_records::FsRecordDump;
use crate::fs_record_body::{DstreamFields, FsRecordKey, FsRecordRow, FsRecordValue, InodeBody, XattrBody};
use crate::sort::{bytes_le, lemma_bytes_le_total_preorder, merge_sort, Sortable, is_sorted};
use crate::text::{decimal, digit_char, hex_dump, owned, push_decimal};

verus! {

broadcast use vstd::std_specs::hash::group_hash_axioms;

/// Root-directory object id.
pub const APFS_ROOT_DIR_OID: u64 = 2;

/// Deepest directory level the walk descends to.
pub const MAX_TREE_DEPTH: usize = 128;

pub const DT_DIR: u8 = 4;
pub const DT_REG: u8 = 8;
pub const DT_LNK: u8 = 10;

pub const INODE_HAS_UNCOMPRESSED_SIZE: u64 = 0x0004_0000;

pub const XATTR_SYMLINK_NAME: &'static str = "com.apple.fs.symlink";
pub const XATTR_DECMPFS_NAME: &'static str = "com.apple.decmpfs";
pub const XATTR_RFORK_NAME: &'static str = "com.apple.ResourceFork";

/// What a namespace entry is.
#[derive(Debug, Clone, Copy, PartialEq, Eq, Structural)]
pub enum EntryKind {
    Dir,
    File,
    Symlink,
    Other,
}

/// One path of the namespace.
#[derive(Debug, Clone, PartialEq, Eq)]
pub struct NamespaceEntry {
    pub path: String,
    pub entry_kind: EntryKind,
    pub file_id: u64,
    pub logical_size: u64,
    pub symlink_target: Option<String>,
    /// Allocated bytes of the inode, when the rules give one.
    pub allocated_size: Option<u64>,
}

/// Unique-inode totals of one directory's subtree.
#[derive(Debug, Clone, PartialEq, Eq)]
pub struct DirectoryAggregate {
    pub path: String,
    pub unique_inode_logical_total: u64,
    pub contributing_file_ids: Vec<u64>,
    /// Absent when any contributing inode has no allocated size.
    pub unique_inode_allocated_total: Option<u64>,
}

/// A subtree the walk did not descend into, and why.
#[derive(Debug, Clone, PartialEq, Eq)]
pub struct WalkSkip {
    pub path: String,
    pub reason: String,
}

// ---- entry kinds and sizes ------------------------------------------------ //

/// Directory-record types name kinds one to one: a record is a directory,
/// a regular file or a symbolic link exactly when its type is `DT_DIR`,
/// `DT_REG` or `DT_LNK`; every other type is `Other`.
pub proof fn lemma_drec_kinds_one_to_one(entry_type: u8)
    ensures
        (kind_of(entry_type) == EntryKind::Dir) <==> (entry_type == DT_DIR),
        (kind_of(entry_type) == EntryKind::File) <==> (entry_type == DT_REG),
        (kind_of(entry_type) == EntryKind::Symlink) <==> (entry_type == DT_LNK),
        (kind_of(entry_type) == EntryKind::Other) <==> (entry_type != DT_DIR && entry_type != DT_REG && entry_type
            != DT_LNK),
{
}

pub open spec fn kind_of(entry_type: u8) -> EntryKind {
    if entry_type == DT_DIR {
        EntryKind::Dir
    } else if entry_type == DT_REG {
        EntryKind::File
    } else if entry_type == DT_LNK {
        EntryKind::Symlink
    } else {
        EntryKind::Other
    }
}

pub fn entry_kind_from_drec(entry_type: u8) -> (r: EntryKind)
    ensures
        r == kind_of(entry_type),
{
    if entry_type == DT_DIR {
        EntryKind::Dir
    } else if entry_type == DT_REG {
        EntryKind::File
    } else if entry_type == DT_LNK {
        EntryKind::Symlink
    } else {
        EntryKind::Other
    }
}

/// The extended attributes of one inode by name; a later insert of a name
/// replaces an earlier one.
pub struct XattrLookup<'a> {
    pub entries: Vec<(&'a str, &'a XattrBody)>,
}

/// The attribute named `name` in `entries`: the last one inserted.
pub open spec fn xattr_named(entries: Seq<(Seq<char>, XattrBody)>, name: Seq<char>) -> Option<XattrBody>
    decreases entries.len(),
{
    if entries.len() == 0 {
        None
    } else if entries.last().0 == name {
        Some(entries.last().1)
    } else {
        xattr_named(entries.drop_last(), name)
    }
}

/// The name and attribute pairs of a lookup table.
pub open spec fn lookup_entries<'a>(e: Seq<(&'a str, &'a XattrBody)>) -> Seq<(Seq<char>, XattrBody)> {
    e.map_values(|p: (&'a str, &'a XattrBody)| (p.0@, *p.1))
}

/// The attribute named `name` among `xattrs`, if there are any.
pub open spec fn xattr_in(xattrs: Option<Seq<(Seq<char>, XattrBody)>>, name: Seq<char>) -> Option<XattrBody> {
    match xattrs {
        Some(e) => xattr_named(e, name),
        None => None,
    }
}

pub(crate) fn str_eq(a: &str, b: &str) -> (r: bool)
    ensures
        r == (a@ == b@),
{
    let n = a.unicode_len();
    if n != b.unicode_len() {
        return false;
    }
    let mut i: usize = 0;
    while i < n
        invariant
            n == a@.len(),
            n == b@.len(),
            i <= n,
            forall|k: int| 0 <= k < i ==> a@[k] == b@[k],
        decreases n - i,
    {
        if a.get_char(i) != b.get_char(i) {
            return false;
        }
        i = i + 1;
    }
    assert(a@ =~= b@);
    true
}

impl<'a> XattrLookup<'a> {
    pub fn new() -> (r: Self)
        ensures
            r.entries@.len() == 0,
    {
        XattrLookup { entries: Vec::new() }
    }

    /// Records `value` under `name`, replacing an earlier one.
    pub fn insert(&mut self, name: &'a str, value: &'a XattrBody)
        ensures
            final(self).entries@ == old(self).entries@.push((name, value)),
    {
        self.entries.push((name, value));
    }

    /// The attribute named `name`.
    pub fn get(&self, name: &str) -> (r: Option<&'a XattrBody>)
        ensures
            match r {
                Some(x) => xattr_named(lookup_entries(self.entries@), name@) == Some(*x),
                None => xattr_named(lookup_entries(self.entries@), name@) is None,
            },
    {
        let mut i = self.entries.len();
        assert(self.entries@.subrange(0, i as int) =~= self.entries@);
        assert(lookup_entries(self.entries@.subrange(0, i as int)) =~= lookup_entries(self.entries@));
        while i > 0
            invariant
                i <= self.entries@.len(),
                xattr_named(lookup_entries(self.entries@), name@) == xattr_named(
                    lookup_entries(self.entries@.subrange(0, i as int)),
                    name@,
                ),
            decreases i,
        {
            let ghost prefix = self.entries@.subrange(0, i as int);
            let (n, x) = self.entries[i - 1];
            assert(prefix.last() == (n, x));
            assert(prefix.drop_last() =~= self.entries@.subrange(0, i - 1));
            assert(lookup_entries(prefix).last() == (n@, *x));
            assert(lookup_entries(prefix).drop_last() =~= lookup_entries(self.entries@.subrange(0, i - 1)));
            if str_eq(n, name) {
                return Some(x);
            }
            i = i - 1;
        }
        None
    }

    /// Whether an attribute named `name` was recorded.
    pub fn contains_key(&self, name: &str) -> (r: bool)
        ensures
            r == xattr_named(lookup_entries(self.entries@), name@) is Some,
    {
        self.get(name).is_some()
    }
}

/// Allocated size of an inode of type `entry_type`.
pub open spec fn allocated_spec(
    entry_type: u8,
    inode: Option<InodeBody>,
    xattrs: Option<Seq<(Seq<char>, XattrBody)>>,
) -> Option<u64> {
    if entry_type == DT_LNK || entry_type == DT_DIR {
        Some(0)
    } else if entry_type == DT_REG {
        match inode {
            None => None,
            Some(i) => if xattr_in(xattrs, XATTR_DECMPFS_NAME@) is Some {
                let primary: u64 = match i.dstream {
                    Some(d) => d.alloced_size,
                    None => 0,
                };
                Some(
                    primary.wrapping_add(stream_share(xattr_in(xattrs, XATTR_DECMPFS_NAME@))).wrapping_add(
                        stream_share(xattr_in(xattrs, XATTR_RFORK_NAME@)),
                    ),
                )
            } else {
                match i.sparse_bytes {
                    Some(sparse) => match i.dstream {
                        Some(d) => Some(if d.alloced_size >= sparse {
                            (d.alloced_size - sparse) as u64
                        } else {
                            0
                        }),
                        None => None,
                    },
                    None => match i.dstream {
                        Some(d) => Some(d.alloced_size),
                        None => None,
                    },
                }
            },
        }
    } else {
        None
    }
}

/// The allocated bytes of an attribute's data stream, zero when it has
/// none.
pub open spec fn stream_share(x: Option<XattrBody>) -> u64 {
    match x {
        Some(b) => match b.stream_dstream {
            Some(d) => d.alloced_size,
            None => 0,
        },
        None => 0,
    }
}

fn xattr_share(xattrs: Option<&XattrLookup>, name: &str) -> (r: u64)
    ensures
        r == stream_share(
            match xattrs {
                Some(m) => xattr_named(lookup_entries(m.entries@), name@),
                None => None,
            },
        ),
{
    match xattrs {
        Some(m) => match m.get(name) {
            Some(x) => match &x.stream_dstream {
                Some(d) => d.alloced_size,
                None => 0,
            },
            None => 0,
        },
        None => 0,
    }
}

/// The view of an optional attribute table.
pub open spec fn lookup_view<'a>(xattrs: Option<&XattrLookup<'a>>) -> Option<Seq<(Seq<char>, XattrBody)>> {
    match xattrs {
        Some(m) => Some(lookup_entries(m.entries@)),
        None => None,
    }
}

/// The allocated-size rule for one inode.
pub fn compute_allocated_size(
    entry_type: u8,
    inode: Option<&InodeBody>,
    xattrs: Option<&XattrLookup>,
) -> (r: Option<u64>)
    ensures
        r == allocated_spec(
            entry_type,
            match inode {
                Some(i) => Some(*i),
                None => None,
            },
            lookup_view(xattrs),
        ),
{
    if entry_type == DT_LNK || entry_type == DT_DIR {
        return Some(0);
    }
    if entry_type != DT_REG {
        return None;
    }
    let inode = match inode {
        Some(i) => i,
        None => {
            return None;
        },
    };
    let has_decmpfs = match xattrs {
        Some(m) => m.contains_key(XATTR_DECMPFS_NAME),
        None => false,
    };
    if has_decmpfs {
        let primary: u64 = match &inode.dstream {
            Some(d) => d.alloced_size,
            None => 0,
        };
        let decmpfs_share = xattr_share(xattrs, XATTR_DECMPFS_NAME);
        let rfork_share = xattr_share(xattrs, XATTR_RFORK_NAME);
        return Some(primary.wrapping_add(decmpfs_share).wrapping_add(rfork_share));
    }
    match inode.sparse_bytes {
        Some(sparse_bytes) => match &inode.dstream {
            Some(d) => Some(d.alloced_size.saturating_sub(sparse_bytes)),
            None => None,
        },
        None => match &inode.dstream {
            Some(d) => Some(d.alloced_size),
            None => None,
        },
    }
}

// ---- decmpfs header ------------------------------------------------------- //

/// The value of a hex digit character, if it is one.
pub open spec fn nibble(c: u8) -> Option<u8> {
    if 0x30 <= c <= 0x39 {
        Some((c - 0x30) as u8)
    } else if 0x61 <= c <= 0x66 {
        Some((c - 0x61 + 10) as u8)
    } else if 0x41 <= c <= 0x46 {
        Some((c - 0x41 + 10) as u8)
    } else {
        None
    }
}

pub fn hex_nibble(byte: u8) -> (r: Option<u8>)
    ensures
        r == nibble(byte),
{
    if 0x30 <= byte && byte <= 0x39 {
        Some(byte - 0x30)
    } else if 0x61 <= byte && byte <= 0x66 {
        Some(byte - 0x61 + 10)
    } else if 0x41 <= byte && byte <= 0x46 {
        Some(byte - 0x41 + 10)
    } else {
        None
    }
}

/// The bytes a hex string spells, two digits per byte; `None` for an odd
/// length or a non-digit.
pub open spec fn hex_decode(h: Seq<u8>) -> Option<Seq<u8>>
    decreases h.len(),
{
    if h.len() % 2 != 0 {
        None
    } else if h.len() == 0 {
        Some(Seq::empty())
    } else {
        match (nibble(h[h.len() - 2]), nibble(h[h.len() - 1])) {
            (Some(hi), Some(lo)) => match hex_decode(h.subrange(0, h.len() - 2)) {
                Some(prefix) => Some(prefix.push((hi * 16 + lo) as u8)),
                None => None,
            },
            _ => None,
        }
    }
}

/// The hex dump's digit pairs spell the bytes.
proof fn lemma_hex_dump_digits(b: Seq<u8>)
    ensures
        hex_dump(b).len() == 2 * b.len(),
        forall|k: int|
            0 <= k < b.len() ==> #[trigger] hex_dump(b)[2 * k] == digit_char((b[k] / 16) as int) && hex_dump(
                b,
            )[2 * k + 1] == digit_char((b[k] % 16) as int),
    decreases b.len(),
{
    if b.len() > 0 {
        lemma_hex_dump_digits(b.drop_last());
        assert forall|k: int| 0 <= k < b.len() implies #[trigger] hex_dump(b)[2 * k] == digit_char(
            (b[k] / 16) as int,
        ) && hex_dump(b)[2 * k + 1] == digit_char((b[k] % 16) as int) by {
            if k < b.len() - 1 {
                assert(b.drop_last()[k] == b[k]);
                assert(hex_dump(b.drop_last())[2 * k] == digit_char((b[k] / 16) as int));
            }
        }
    }
}

/// A digit character's byte is the digit again.
proof fn lemma_nibble_of_digit(d: int)
    requires
        0 <= d < 16,
    ensures
        nibble(digit_char(d) as u8) == Some(d as u8),
{
    if d < 10 {
        assert(digit_char(d) as u32 == 0x30 + d);
    } else {
        assert(digit_char(d) as u32 == 0x61 + d - 10);
    }
}

/// Bytes whose digit pairs spell `b` decode to `b`.
proof fn lemma_hex_decode_pairs(h: Seq<u8>, b: Seq<u8>)
    requires
        h.len() == 2 * b.len(),
        forall|k: int|
            0 <= k < b.len() ==> #[trigger] nibble(h[2 * k]) == Some((b[k] / 16) as u8) && nibble(h[2 * k + 1])
                == Some((b[k] % 16) as u8),
    ensures
        hex_decode(h) == Some(b),
    decreases b.len(),
{
    if b.len() > 0 {
        let n = b.len() - 1;
        let hp = h.subrange(0, h.len() - 2);
        assert forall|k: int| 0 <= k < b.drop_last().len() implies #[trigger] nibble(hp[2 * k]) == Some(
            (b.drop_last()[k] / 16) as u8,
        ) && nibble(hp[2 * k + 1]) == Some((b.drop_last()[k] % 16) as u8) by {
            assert(nibble(h[2 * k]) == Some((b[k] / 16) as u8));
        }
        lemma_hex_decode_pairs(hp, b.drop_last());
        assert(nibble(h[2 * n]) == Some((b[n] / 16) as u8));
        let hi = (b[n] / 16) as u8;
        let lo = (b[n] % 16) as u8;
        assert(hi * 16 + lo == b[n]);
        assert(b.drop_last().push(b[n]) =~= b);
    }
}

/// Decoding a hex dump gives the bytes back: what [`crate::text::to_hex`]
/// writes, [`hex_to_vec`] reads.
pub proof fn lemma_hex_decode_of_dump(b: Seq<u8>)
    ensures
        hex_decode(encode_utf8(hex_dump(b))) == Some(b),
{
    let d = hex_dump(b);
    lemma_hex_dump_digits(b);
    assert forall|i: int| 0 <= i < d.len() implies '\0' <= #[trigger] d[i] <= '\u{7f}' by {
        let k = i / 2;
        assert(i == 2 * k || i == 2 * k + 1);
        assert(d[2 * k] == digit_char((b[k] / 16) as int));
    }
    assert(is_ascii_chars(d));
    is_ascii_chars_encode_utf8(d);
    let e = encode_utf8(d);
    assert forall|k: int| 0 <= k < b.len() implies #[trigger] nibble(e[2 * k]) == Some((b[k] / 16) as u8) && nibble(
        e[2 * k + 1],
    ) == Some((b[k] % 16) as u8) by {
        assert(d[2 * k] == digit_char((b[k] / 16) as int));
        assert(e[2 * k] == d[2 * k] as u8);
        assert(e[2 * k + 1] == d[2 * k + 1] as u8);
        lemma_nibble_of_digit((b[k] / 16) as int);
        lemma_nibble_of_digit((b[k] % 16) as int);
    }
    lemma_hex_decode_pairs(e, b);
}

/// Decodes a hex string into bytes.
pub fn hex_to_vec(hex: &str) -> (r: Option<Vec<u8>>)
    ensures
        match (r, hex_decode(encode_utf8(hex@))) {
            (Some(v), Some(b)) => v@ == b,
            (None, None) => true,
            _ => false,
        },
{
    hex_bytes_to_vec(hex.as_bytes())
}

fn hex_bytes_to_vec(bytes: &[u8]) -> (r: Option<Vec<u8>>)
    ensures
        match (r, hex_decode(bytes@)) {
            (Some(v), Some(b)) => v@ == b,
            (None, None) => true,
            _ => false,
        },
{
    let ghost h = bytes@;
    if bytes.len() % 2 != 0 {
        return None;
    }
    let mut out: Vec<u8> = Vec::new();
    let mut index: usize = 0;
    assert(h.subrange(0, 0) =~= Seq::<u8>::empty());
    while index < bytes.len()
        invariant
            h == bytes@,
            h.len() % 2 == 0,
            index % 2 == 0,
            index <= h.len(),
            hex_decode(h.subrange(0, index as int)) == Some(out@),
        decreases h.len() - index,
    {
        let high = hex_nibble(bytes[index]);
        let low = hex_nibble(bytes[index + 1]);
        let ghost next = h.subrange(0, index + 2);
        assert(next.subrange(0, index as int) =~= h.subrange(0, index as int));
        assert(next[next.len() - 2] == h[index as int]);
        assert(next[next.len() - 1] == h[index + 1]);
        match (high, low) {
            (Some(hi), Some(lo)) => {
                out.push(hi * 16 + lo);
            },
            _ => {
                proof {
                    lemma_hex_decode_fails_later(h, index as int + 2);
                }
                return None;
            },
        }
        index = index + 2;
    }
    assert(h.subrange(0, h.len() as int) =~= h);
    Some(out)
}

proof fn lemma_hex_decode_fails_later(h: Seq<u8>, i: int)
    requires
        2 <= i <= h.len(),
        i % 2 == 0,
        h.len() % 2 == 0,
        hex_decode(h.subrange(0, i)) is None,
    ensures
        hex_decode(h) is None,
    decreases h.len() - i,
{
    if i < h.len() {
        let p = h.subrange(0, i + 2);
        assert(p.subrange(0, i) =~= h.subrange(0, i));
        lemma_hex_decode_fails_later(h, i + 2);
    } else {
        assert(h.subrange(0, i) =~= h);
    }
}

/// The little-endian `u64` at `off`.
pub open spec fn u64_at(b: Seq<u8>, off: int) -> u64 {
    le64(b, off) as u64
}

/// The `uncompressed_size` a `com.apple.decmpfs` header spells (magic,
/// compression type, then the size as little-endian `u64` at offset 8),
/// when the hex payload decodes to at least 16 bytes.
pub open spec fn compressed_header_size(payload_hex: Seq<char>) -> Option<u64> {
    match hex_decode(encode_utf8(payload_hex)) {
        Some(b) => if b.len() >= 16 {
            Some(u64_at(b, 8))
        } else {
            None
        },
        None => None,
    }
}

pub fn decmpfs_uncompressed_size(payload_hex: &str) -> (r: Option<u64>)
    ensures
        r == compressed_header_size(payload_hex@),
{
    let bytes = hex_to_vec(payload_hex)?;
    if bytes.len() < 16 {
        return None;
    }
    Some(crate::block_io::le_u64(bytes.as_slice(), 8))
}

// ---- logical size ---------------------------------------------------------- //

/// `s` without its trailing NUL characters.
pub open spec fn trim_nuls(s: Seq<char>) -> Seq<char>
    decreases s.len(),
{
    if s.len() > 0 && s.last() == '\0' {
        trim_nuls(s.drop_last())
    } else {
        s
    }
}

/// Logical size and symlink target of an inode of type `entry_type`.
pub open spec fn logical_spec(
    entry_type: u8,
    inode: Option<InodeBody>,
    xattrs: Option<Seq<(Seq<char>, XattrBody)>>,
) -> (u64, Option<Seq<char>>) {
    if entry_type == DT_LNK {
        match xattr_in(xattrs, XATTR_SYMLINK_NAME@) {
            Some(x) => if x.embedded {
                match x.payload_utf8 {
                    Some(t) => ((encode_utf8(trim_nuls(t@)).len() as usize) as u64, Some(trim_nuls(t@))),
                    None => (0, None),
                }
            } else {
                (0, None)
            },
            None => (0, None),
        }
    } else if entry_type != DT_REG {
        (0, None)
    } else {
        match inode {
            None => (0, None),
            Some(i) => match xattr_in(xattrs, XATTR_DECMPFS_NAME@) {
                Some(x) => if i.has_uncompressed_size || i.internal_flags & INODE_HAS_UNCOMPRESSED_SIZE != 0 {
                    (i.uncompressed_size, None)
                } else {
                    match compressed_header_size(x.payload_hex@) {
                        Some(size) => (size, None),
                        None => (0, None),
                    }
                },
                None => match i.dstream {
                    Some(d) => (d.size, None),
                    None => (0, None),
                },
            },
        }
    }
}

/// A compressed regular file (one with a `com.apple.decmpfs` attribute)
/// whose inode carries `INODE_HAS_UNCOMPRESSED_SIZE` has the inode's
/// `uncompressed_size` as its logical size, whatever its data streams, and
/// no symlink target.
pub proof fn lemma_compressed_file_size(
    inode: InodeBody,
    xattrs: Option<Seq<(Seq<char>, XattrBody)>>,
    other_dstream: Option<DstreamFields>,
)
    requires
        xattr_in(xattrs, XATTR_DECMPFS_NAME@) is Some,
        inode.internal_flags & INODE_HAS_UNCOMPRESSED_SIZE != 0,
    ensures
        logical_spec(DT_REG, Some(inode), xattrs) == (inode.uncompressed_size, None::<Seq<char>>),
        logical_spec(DT_REG, Some(InodeBody { dstream: other_dstream, ..inode }), xattrs) == logical_spec(
            DT_REG,
            Some(inode),
            xattrs,
        ),
{
}

/// `text` without its trailing NUL characters.
fn trim_trailing_nuls(text: &str) -> (r: &str)
    ensures
        r@ == trim_nuls(text@),
{
    let mut n = text.unicode_len();
    assert(text@.subrange(0, n as int) =~= text@);
    while n > 0 && text.get_char(n - 1) == '\0'
        invariant
            n <= text@.len(),
            trim_nuls(text@) == trim_nuls(text@.subrange(0, n as int)),
        decreases n,
    {
        let ghost pre = text@.subrange(0, n as int);
        assert(pre.drop_last() =~= text@.subrange(0, n - 1));
        n = n - 1;
    }
    text.substring_char(0, n)
}

/// The UTF-8 byte length of `s`.
fn byte_len(s: &str) -> (r: u64)
    ensures
        r == (encode_utf8(s@).len() as usize) as u64,
{
    s.len() as u64
}

/// The logical-size rule for one inode.
pub fn logical_size_and_target_of(
    entry_type: u8,
    inode: Option<&InodeBody>,
    xattrs: Option<&XattrLookup>,
) -> (r: (u64, Option<String>))
    ensures
        r.0 == logical_spec(
            entry_type,
            match inode {
                Some(i) => Some(*i),
                None => None,
            },
            lookup_view(xattrs),
        ).0,
        text_opt(
            r.1,
            logical_spec(
                entry_type,
                match inode {
                    Some(i) => Some(*i),
                    None => None,
                },
                lookup_view(xattrs),
            ).1,
        ),
{
    if entry_type == DT_LNK {
        let symlink = match xattrs {
            Some(m) => m.get(XATTR_SYMLINK_NAME),
            None => None,
        };
        if let Some(x) = symlink {
            if x.embedded {
                if let Some(text) = &x.payload_utf8 {
                    let trimmed = trim_trailing_nuls(text.as_str());
                    return (byte_len(trimmed), Some(owned(trimmed)));
                }
            }
        }
        return (0, None);
    }
    if entry_type != DT_REG {
        return (0, None);
    }
    let inode = match inode {
        Some(i) => i,
        None => {
            return (0, None);
        },
    };
    let compressed = match xattrs {
        Some(m) => m.get(XATTR_DECMPFS_NAME),
        None => None,
    };
    if let Some(x) = compressed {
        if inode.has_uncompressed_size || (inode.internal_flags & INODE_HAS_UNCOMPRESSED_SIZE) != 0 {
            return (inode.uncompressed_size, None);
        }
        return match decmpfs_uncompressed_size(x.payload_hex.as_str()) {
            Some(size) => (size, None),
            None => (0, None),
        };
    }
    match &inode.dstream {
        Some(d) => (d.size, None),
        None => (0, None),
    }
}

/// `o` holds exactly the text `t`.
pub open spec fn text_opt(o: Option<String>, t: Option<Seq<char>>) -> bool {
    match (o, t) {
        (Some(s), Some(u)) => s@ == u,
        (None, None) => true,
        _ => false,
    }
}

// ---- the record index ------------------------------------------------------ //

/// One entry of a directory.
pub struct DrecChild {
    pub name: String,
    pub file_id: u64,
    pub entry_type: u8,
}

/// What a directory entry holds, as values.
pub struct ChildSpec {
    pub name: Seq<char>,
    pub file_id: u64,
    pub entry_type: u8,
}

pub open spec fn child_view(c: DrecChild) -> ChildSpec {
    ChildSpec { name: c.name@, file_id: c.file_id, entry_type: c.entry_type }
}

pub open spec fn children_view(v: Seq<DrecChild>) -> Seq<ChildSpec> {
    v.map_values(|c: DrecChild| child_view(c))
}

/// `c` goes after every entry whose name's bytes are not greater, and
/// before the rest: an insertion that keeps names in byte order and equal
/// names in arrival order.
pub open spec fn sorted_insert(s: Seq<ChildSpec>, c: ChildSpec) -> Seq<ChildSpec>
    decreases s.len(),
{
    if s.len() == 0 {
        seq![c]
    } else if crate::sort::bytes_lt(encode_utf8(c.name), encode_utf8(s.last().name)) {
        sorted_insert(s.drop_last(), c).push(s.last())
    } else {
        s.push(c)
    }
}

/// What a namespace walk reads: each directory's entries in order, each
/// inode, and each inode's extended attributes.
#[verifier::ext_equal]
pub struct NsSource {
    pub children: spec_fn(u64) -> Seq<ChildSpec>,
    pub inode: spec_fn(u64) -> Option<InodeBody>,
    pub xattrs: spec_fn(u64) -> Option<Seq<(Seq<char>, XattrBody)>>,
}

/// The directory entries, inodes and extended attributes of a record set,
/// by object id.
pub struct NamespaceIndex<'a> {
    pub drec_children: HashMap<u64, Vec<DrecChild>>,
    pub inode_by_id: HashMap<u64, &'a InodeBody>,
    pub xattrs_by_id: HashMap<u64, XattrLookup<'a>>,
}

impl<'a> NamespaceIndex<'a> {
    pub open spec fn children_of(&self, parent: u64) -> Seq<ChildSpec> {
        if self.drec_children@.contains_key(parent) {
            children_view(self.drec_children@[parent]@)
        } else {
            Seq::empty()
        }
    }

    pub open spec fn inode_of(&self, id: u64) -> Option<InodeBody> {
        if self.inode_by_id@.contains_key(id) {
            Some(*self.inode_by_id@[id])
        } else {
            None
        }
    }

    pub open spec fn xattrs_of(&self, id: u64) -> Option<Seq<(Seq<char>, XattrBody)>> {
        if self.xattrs_by_id@.contains_key(id) {
            Some(lookup_entries(self.xattrs_by_id@[id].entries@))
        } else {
            None
        }
    }

    /// What the walk reads from this index.
    pub open spec fn source(&self) -> NsSource {
        NsSource {
            children: |p: u64| self.children_of(p),
            inode: |id: u64| self.inode_of(id),
            xattrs: |id: u64| self.xattrs_of(id),
        }
    }
}

/// The directory entry a record contributes: its parent and the entry.
pub open spec fn record_drec(r: FsRecordRow) -> Option<(u64, ChildSpec)> {
    match (r.key, r.value) {
        (FsRecordKey::Named { name, .. }, FsRecordValue::DirRec(d)) => if r.family@ == "dir_rec"@ {
            Some((r.object_id, ChildSpec { name: name@, file_id: d.file_id, entry_type: d.entry_type }))
        } else {
            None
        },
        _ => None,
    }
}

/// The extended attribute a record contributes: its inode, name and body.
pub open spec fn record_xattr(r: FsRecordRow) -> Option<(u64, Seq<char>, XattrBody)> {
    match (r.key, r.value) {
        (FsRecordKey::Named { name, .. }, FsRecordValue::Xattr(x)) => Some((r.object_id, name@, x)),
        _ => None,
    }
}

/// The entries of directory `parent`, names in byte order, equal names in
/// record order.
pub open spec fn rec_children(records: Seq<FsRecordRow>, parent: u64) -> Seq<ChildSpec>
    decreases records.len(),
{
    if records.len() == 0 {
        Seq::empty()
    } else {
        let prev = rec_children(records.drop_last(), parent);
        match record_drec(records.last()) {
            Some((p, c)) => if p == parent {
                sorted_insert(prev, c)
            } else {
                prev
            },
            None => prev,
        }
    }
}

/// The last inode record of `id`.
pub open spec fn rec_inode(records: Seq<FsRecordRow>, id: u64) -> Option<InodeBody>
    decreases records.len(),
{
    if records.len() == 0 {
        None
    } else {
        match records.last().value {
            FsRecordValue::Inode(i) => if records.last().object_id == id {
                Some(i)
            } else {
                rec_inode(records.drop_last(), id)
            },
            _ => rec_inode(records.drop_last(), id),
        }
    }
}

/// The extended attributes of `id` in record order, or `None` if it has
/// none.
pub open spec fn rec_xattrs(records: Seq<FsRecordRow>, id: u64) -> Option<Seq<(Seq<char>, XattrBody)>>
    decreases records.len(),
{
    if records.len() == 0 {
        None
    } else {
        let prev = rec_xattrs(records.drop_last(), id);
        match record_xattr(records.last()) {
            Some((o, n, x)) => if o == id {
                match prev {
                    Some(p) => Some(p.push((n, x))),
                    None => Some(seq![(n, x)]),
                }
            } else {
                prev
            },
            None => prev,
        }
    }
}

/// What the walk reads from a record set.
pub open spec fn records_source(records: Seq<FsRecordRow>) -> NsSource {
    NsSource {
        children: |p: u64| rec_children(records, p),
        inode: |id: u64| rec_inode(records, id),
        xattrs: |id: u64| rec_xattrs(records, id),
    }
}

proof fn lemma_sorted_insert_at(s: Seq<ChildSpec>, c: ChildSpec, k: int)
    requires
        0 <= k <= s.len(),
        forall|j: int| k <= j < s.len() ==> crate::sort::bytes_lt(encode_utf8(c.name), encode_utf8(#[trigger] s[j].name)),
        k > 0 ==> !crate::sort::bytes_lt(encode_utf8(c.name), encode_utf8(s[k - 1].name)),
    ensures
        sorted_insert(s, c) == s.insert(k, c),
    decreases s.len(),
{
    if s.len() == 0 {
        assert(s.insert(k, c) =~= seq![c]);
    } else if k == s.len() {
        assert(s.insert(k, c) =~= s.push(c));
    } else {
        let d = s.drop_last();
        assert forall|j: int| k <= j < d.len() implies crate::sort::bytes_lt(encode_utf8(c.name), encode_utf8(#[trigger] d[j].name)) by {
            assert(d[j] == s[j]);
        }
        if k > 0 {
            assert(d[k - 1] == s[k - 1]);
        }
        lemma_sorted_insert_at(d, c, k);
        assert(d.insert(k, c).push(s.last()) =~= s.insert(k, c));
    }
}

/// Inserts `c` into `list`, after the entries whose names do not sort
/// after it.
fn insert_child(list: &mut Vec<DrecChild>, c: DrecChild)
    ensures
        children_view(final(list)@) == sorted_insert(children_view(old(list)@), child_view(c)),
{
    let mut k = list.len();
    while k > 0 && crate::sort::bytes_less(c.name.as_str().as_bytes(), list[k - 1].name.as_str().as_bytes())
        invariant
            k <= list@.len(),
            list@ == old(list)@,
            forall|j: int| k <= j < list@.len() ==> crate::sort::bytes_lt(encode_utf8(c.name@), encode_utf8(#[trigger] list@[j].name@)),
        decreases k,
    {
        k = k - 1;
    }
    let ghost before = children_view(list@);
    proof {
        assert forall|j: int| k <= j < before.len() implies crate::sort::bytes_lt(encode_utf8(child_view(c).name), encode_utf8(#[trigger] before[j].name)) by {
            assert(before[j] == child_view(list@[j]));
        }
        if k > 0 {
            assert(before[k - 1] == child_view(list@[k - 1]));
        }
        lemma_sorted_insert_at(before, child_view(c), k as int);
    }
    let ghost cv = child_view(c);
    list.insert(k, c);
    assert(children_view(list@) =~= before.insert(k as int, cv));
}

impl<'a> NamespaceIndex<'a> {
    /// Indexes the directory entries (names in byte order), inodes and
    /// extended attributes of `records` by object id.
    pub fn from_records(records: &'a [FsRecordRow]) -> (r: Self)
        ensures
            forall|p: u64| #[trigger] r.children_of(p) == rec_children(records@, p),
            forall|id: u64| #[trigger] r.inode_of(id) == rec_inode(records@, id),
            forall|id: u64| #[trigger] r.xattrs_of(id) == rec_xattrs(records@, id),
    {
        let mut drec_children: HashMap<u64, Vec<DrecChild>> = HashMap::new();
        let mut inode_by_id: HashMap<u64, &'a InodeBody> = HashMap::new();
        let mut xattrs_by_id: HashMap<u64, XattrLookup<'a>> = HashMap::new();
        let mut i: usize = 0;
        while i < records.len()
            invariant
                i <= records@.len(),
                forall|p: u64| #[trigger] (NamespaceIndex { drec_children, inode_by_id, xattrs_by_id }).children_of(p)
                    == rec_children(records@.subrange(0, i as int), p),
                forall|id: u64| #[trigger] (NamespaceIndex { drec_children, inode_by_id, xattrs_by_id }).inode_of(id)
                    == rec_inode(records@.subrange(0, i as int), id),
                forall|id: u64| #[trigger] (NamespaceIndex { drec_children, inode_by_id, xattrs_by_id }).xattrs_of(id)
                    == rec_xattrs(records@.subrange(0, i as int), id),
            decreases records@.len() - i,
        {
            let record = &records[i];
            let ghost prefix = records@.subrange(0, i as int);
            let ghost next = records@.subrange(0, i + 1);
            let ghost old_idx = NamespaceIndex { drec_children, inode_by_id, xattrs_by_id };
            assert(next.drop_last() =~= prefix);
            assert(next.last() == *record);
            match &record.value {
                FsRecordValue::DirRec(drec) => {
                    match &record.key {
                        FsRecordKey::Named { name, .. } => {
                            if str_eq(record.family, "dir_rec") {
                                let id = record.object_id;
                                let mut list = match drec_children.remove(&id) {
                                    Some(l) => l,
                                    None => Vec::new(),
                                };
                                assert(children_view(list@) == old_idx.children_of(id));
                                insert_child(
                                    &mut list,
                                    DrecChild { name: name.clone(), file_id: drec.file_id, entry_type: drec.entry_type },
                                );
                                drec_children.insert(id, list);
                            }
                        },
                        _ => {},
                    }
                },
                FsRecordValue::Inode(inode) => {
                    inode_by_id.insert(record.object_id, inode);
                },
                FsRecordValue::Xattr(x) => {
                    match &record.key {
                        FsRecordKey::Named { name, .. } => {
                            let id = record.object_id;
                            let mut lookup = match xattrs_by_id.remove(&id) {
                                Some(l) => l,
                                None => XattrLookup::new(),
                            };
                            proof {
                                if !old_idx.xattrs_by_id@.contains_key(id) {
                                    assert(lookup_entries(lookup.entries@) =~= Seq::<(Seq<char>, XattrBody)>::empty());
                                }
                            }
                            lookup.insert(name.as_str(), x);
                            xattrs_by_id.insert(id, lookup);
                        },
                        _ => {},
                    }
                },
                _ => {},
            }
            proof {
                let idx = NamespaceIndex { drec_children, inode_by_id, xattrs_by_id };
                assert forall|p: u64| #[trigger] idx.children_of(p) == rec_children(next, p) by {
                    assert(old_idx.children_of(p) == rec_children(prefix, p));
                }
                assert forall|id: u64| #[trigger] idx.inode_of(id) == rec_inode(next, id) by {
                    assert(old_idx.inode_of(id) == rec_inode(prefix, id));
                }
                assert forall|id: u64| #[trigger] idx.xattrs_of(id) == rec_xattrs(next, id) by {
                    assert(old_idx.xattrs_of(id) == rec_xattrs(prefix, id));
                    if old_idx.xattrs_by_id@.contains_key(id) && idx.xattrs_by_id@.contains_key(id) {
                        let o = old_idx.xattrs_by_id@[id].entries@;
                        let n = idx.xattrs_by_id@[id].entries@;
                        if n.len() == o.len() + 1 {
                            assert(lookup_entries(n) =~= lookup_entries(o).push(lookup_entries(n).last()));
                        }
                    }
                }
            }
            i = i + 1;
        }
        assert(records@.subrange(0, records@.len() as int) =~= records@);
        NamespaceIndex { drec_children, inode_by_id, xattrs_by_id }
    }
}

// ---- the walk -------------------------------------------------------------- //

/// A namespace entry, as values.
pub struct EntryModel {
    pub path: Seq<char>,
    pub kind: EntryKind,
    pub file_id: u64,
    pub logical: u64,
    pub target: Option<Seq<char>>,
    pub allocated: Option<u64>,
}

/// A skipped subtree, as values.
pub struct SkipModel {
    pub path: Seq<char>,
    pub reason: Seq<char>,
}

/// The walk's state: the directory ids entered, the entries emitted and
/// the subtrees skipped.
pub struct NsState {
    pub visited: Set<u64>,
    pub out: Seq<EntryModel>,
    pub skips: Seq<SkipModel>,
}

pub open spec fn entry_view(e: NamespaceEntry) -> EntryModel {
    EntryModel {
        path: e.path@,
        kind: e.entry_kind,
        file_id: e.file_id,
        logical: e.logical_size,
        target: match e.symlink_target {
            Some(t) => Some(t@),
            None => None,
        },
        allocated: e.allocated_size,
    }
}

pub open spec fn entries_view(v: Seq<NamespaceEntry>) -> Seq<EntryModel> {
    v.map_values(|e: NamespaceEntry| entry_view(e))
}

pub open spec fn skips_view(v: Seq<WalkSkip>) -> Seq<SkipModel> {
    v.map_values(|w: WalkSkip| SkipModel { path: w.path@, reason: w.reason@ })
}

/// The path of entry `name` in the directory at `parent` (`.` is the
/// root).
pub open spec fn child_path(parent: Seq<char>, name: Seq<char>) -> Seq<char> {
    if parent == "."@ {
        name
    } else {
        parent + "/"@ + name
    }
}

pub open spec fn depth_cap_reason() -> Seq<char> {
    "depth_cap_reached(128)"@
}

pub open spec fn cycle_reason(file_id: u64) -> Seq<char> {
    "drec_cycle(file_id="@ + decimal(file_id as nat) + ")"@
}

/// The entry emitted for child `c` of the directory at `parent`.
pub open spec fn entry_for(src: NsSource, parent: Seq<char>, c: ChildSpec) -> EntryModel {
    let sizes = logical_spec(c.entry_type, (src.inode)(c.file_id), (src.xattrs)(c.file_id));
    EntryModel {
        path: child_path(parent, c.name),
        kind: kind_of(c.entry_type),
        file_id: c.file_id,
        logical: sizes.0,
        target: sizes.1,
        allocated: allocated_spec(c.entry_type, (src.inode)(c.file_id), (src.xattrs)(c.file_id)),
    }
}

/// The walk of directory `parent` at `depth`: past the depth cap the
/// directory is recorded as skipped; otherwise its entries are walked in
/// order.
pub open spec fn ns_dir(src: NsSource, parent: u64, path: Seq<char>, depth: int, st: NsState) -> NsState
    decreases MAX_TREE_DEPTH - depth, (src.children)(parent).len() + 1,
{
    if depth >= MAX_TREE_DEPTH {
        NsState { skips: st.skips.push(SkipModel { path, reason: depth_cap_reason() }), ..st }
    } else {
        ns_kids(src, (src.children)(parent), 0, path, depth, st)
    }
}

/// The walk of entries `kids` from `i` on. `.fseventsd` is left out. A
/// directory not yet entered is walked one level deeper before its own
/// entry is emitted; one entered before is recorded as a cycle.
pub open spec fn ns_kids(src: NsSource, kids: Seq<ChildSpec>, i: int, path: Seq<char>, depth: int, st: NsState) -> NsState
    decreases MAX_TREE_DEPTH - depth, kids.len() - i,
{
    if i < 0 || i >= kids.len() || depth >= MAX_TREE_DEPTH {
        st
    } else {
        let c = kids[i];
        if c.name == ".fseventsd"@ {
            ns_kids(src, kids, i + 1, path, depth, st)
        } else {
            let p = child_path(path, c.name);
            let st1 = if kind_of(c.entry_type) == EntryKind::Dir {
                if !st.visited.contains(c.file_id) {
                    ns_dir(src, c.file_id, p, depth + 1, NsState { visited: st.visited.insert(c.file_id), ..st })
                } else {
                    NsState { skips: st.skips.push(SkipModel { path: p, reason: cycle_reason(c.file_id) }), ..st }
                }
            } else {
                st
            };
            ns_kids(src, kids, i + 1, path, depth, NsState { out: st1.out.push(entry_for(src, path, c)), ..st1 })
        }
    }
}

/// The walk from the root directory, appended to `out` and `skips`.
pub open spec fn ns_root(src: NsSource, out: Seq<EntryModel>, skips: Seq<SkipModel>) -> NsState {
    ns_dir(
        src,
        APFS_ROOT_DIR_OID,
        "."@,
        0,
        NsState { visited: Set::empty().insert(APFS_ROOT_DIR_OID), out, skips },
    )
}

pub open spec fn state_of(out: Seq<NamespaceEntry>, visited: Set<u64>, skips: Seq<WalkSkip>) -> NsState {
    NsState { visited, out: entries_view(out), skips: skips_view(skips) }
}

impl<'a> NamespaceIndex<'a> {
    /// Logical size and symlink target of the inode `file_id`.
    pub fn logical_size_and_target(&self, file_id: u64, entry_type: u8) -> (r: (u64, Option<String>))
        ensures
            r.0 == logical_spec(entry_type, self.inode_of(file_id), self.xattrs_of(file_id)).0,
            text_opt(r.1, logical_spec(entry_type, self.inode_of(file_id), self.xattrs_of(file_id)).1),
    {
        let inode = match self.inode_by_id.get(&file_id) {
            Some(i) => Some(*i),
            None => None,
        };
        logical_size_and_target_of(entry_type, inode, self.xattrs_by_id.get(&file_id))
    }

    /// Allocated size of the inode `file_id`.
    pub fn allocated_size(&self, file_id: u64, entry_type: u8) -> (r: Option<u64>)
        ensures
            r == allocated_spec(entry_type, self.inode_of(file_id), self.xattrs_of(file_id)),
    {
        let inode = match self.inode_by_id.get(&file_id) {
            Some(i) => Some(*i),
            None => None,
        };
        compute_allocated_size(entry_type, inode, self.xattrs_by_id.get(&file_id))
    }

    /// Walks the directory `parent_id` at `parent_path`, appending its
    /// entries to `out` and the subtrees it does not enter to `truncated`.
    pub fn walk_dir(
        &self,
        parent_id: u64,
        parent_path: &str,
        out: &mut Vec<NamespaceEntry>,
        visited: &mut HashSet<u64>,
        depth: usize,
        truncated: &mut Vec<WalkSkip>,
    )
        requires
            depth <= MAX_TREE_DEPTH,
        ensures
            state_of(final(out)@, final(visited)@, final(truncated)@) == ns_dir(
                self.source(),
                parent_id,
                parent_path@,
                depth as int,
                state_of(old(out)@, old(visited)@, old(truncated)@),
            ),
        decreases MAX_TREE_DEPTH - depth,
    {
        if depth >= MAX_TREE_DEPTH {
            truncated.push(WalkSkip { path: owned(parent_path), reason: owned("depth_cap_reached(128)") });
            proof {
                reveal_strlit("depth_cap_reached(128)");
                assert(skips_view(truncated@) =~= skips_view(old(truncated)@).push(
                    SkipModel { path: parent_path@, reason: depth_cap_reason() },
                ));
            }
            return;
        }
        let ghost src = self.source();
        let ghost st0 = state_of(out@, visited@, truncated@);
        let children = match self.drec_children.get(&parent_id) {
            Some(c) => c,
            None => {
                assert((src.children)(parent_id) =~= Seq::<ChildSpec>::empty());
                return;
            },
        };
        let ghost kids = children_view(children@);
        assert(kids == (src.children)(parent_id));
        let at_root = str_eq(parent_path, ".");
        let mut i: usize = 0;
        while i < children.len()
            invariant
                depth < MAX_TREE_DEPTH,
                src == self.source(),
                kids == children_view(children@),
                kids == (src.children)(parent_id),
                at_root == (parent_path@ == "."@),
                i <= children@.len(),
                ns_dir(src, parent_id, parent_path@, depth as int, st0) == ns_kids(
                    src,
                    kids,
                    i as int,
                    parent_path@,
                    depth as int,
                    state_of(out@, visited@, truncated@),
                ),
            decreases children@.len() - i,
        {
            let child = &children[i];
            let ghost c = child_view(*child);
            let ghost st_i = state_of(out@, visited@, truncated@);
            assert(kids[i as int] == c);
            if str_eq(child.name.as_str(), ".fseventsd") {
                assert(ns_kids(src, kids, i as int, parent_path@, depth as int, st_i) == ns_kids(
                    src,
                    kids,
                    i + 1,
                    parent_path@,
                    depth as int,
                    st_i,
                ));
                i = i + 1;
            } else {
                let path = if at_root {
                    child.name.clone()
                } else {
                    let mut p = owned(parent_path);
                    p.append("/");
                    p.append(child.name.as_str());
                    p
                };
                assert(path@ == child_path(parent_path@, c.name));
                let entry_kind = entry_kind_from_drec(child.entry_type);
                let (logical_size, symlink_target) = self.logical_size_and_target(child.file_id, child.entry_type);
                let allocated_size = self.allocated_size(child.file_id, child.entry_type);
                let ghost st1 = if kind_of(c.entry_type) == EntryKind::Dir {
                    if !st_i.visited.contains(c.file_id) {
                        ns_dir(src, c.file_id, path@, depth + 1, NsState { visited: st_i.visited.insert(c.file_id), ..st_i })
                    } else {
                        NsState { skips: st_i.skips.push(SkipModel { path: path@, reason: cycle_reason(c.file_id) }), ..st_i }
                    }
                } else {
                    st_i
                };
                if entry_kind == EntryKind::Dir {
                    if visited.insert(child.file_id) {
                        assert(state_of(out@, visited@, truncated@) == NsState { visited: st_i.visited.insert(c.file_id), ..st_i });
                        self.walk_dir(child.file_id, path.as_str(), out, visited, depth + 1, truncated);
                        assert(state_of(out@, visited@, truncated@) == st1);
                    } else {
                        assert(visited@ =~= st_i.visited);
                        let mut reason = owned("drec_cycle(file_id=");
                        push_decimal(&mut reason, child.file_id);
                        reason.append(")");
                        let ghost before = truncated@;
                        truncated.push(WalkSkip { path: path.clone(), reason });
                        assert(skips_view(truncated@) =~= skips_view(before).push(
                            SkipModel { path: path@, reason: cycle_reason(child.file_id) },
                        ));
                        assert(state_of(out@, visited@, truncated@) == st1);
                    }
                } else {
                    assert(state_of(out@, visited@, truncated@) == st1);
                }
                let ghost before_out = out@;
                out.push(
                    NamespaceEntry {
                        path,
                        entry_kind,
                        file_id: child.file_id,
                        logical_size,
                        symlink_target,
                        allocated_size,
                    },
                );
                assert(entries_view(out@) =~= entries_view(before_out).push(entry_for(src, parent_path@, c)));
                assert(state_of(before_out, visited@, truncated@) == st1);
                assert(state_of(out@, visited@, truncated@) == NsState { out: st1.out.push(entry_for(src, parent_path@, c)), ..st1 });
                assert(ns_kids(src, kids, i as int, parent_path@, depth as int, st_i) == ns_kids(
                    src,
                    kids,
                    i + 1,
                    parent_path@,
                    depth as int,
                    NsState { out: st1.out.push(entry_for(src, parent_path@, c)), ..st1 },
                ));
                i = i + 1;
            }
        }
    }

    /// Walks the whole namespace from the root directory, which is not
    /// itself emitted.
    pub fn walk_into(&self, out: &mut Vec<NamespaceEntry>, truncated: &mut Vec<WalkSkip>)
        ensures
            entries_view(final(out)@) == ns_root(self.source(), entries_view(old(out)@), skips_view(old(truncated)@)).out,
            skips_view(final(truncated)@) == ns_root(self.source(), entries_view(old(out)@), skips_view(old(truncated)@)).skips,
    {
        let mut visited: HashSet<u64> = HashSet::new();
        visited.insert(APFS_ROOT_DIR_OID);
        self.walk_dir(APFS_ROOT_DIR_OID, ".", out, &mut visited, 0, truncated);
    }
}

// ---- aggregates ------------------------------------------------------------ //

/// `d` is a directory above path `p`: the root `.`, or a non-empty prefix
/// of `p` that a `/` follows.
pub open spec fn ancestor_of(d: Seq<char>, p: Seq<char>) -> bool {
    d == "."@ || exists|i: int| 0 < i < p.len() && p[i] == '/' && #[trigger] p.subrange(0, i) == d
}

/// One inode counted under a directory: file id, logical and allocated
/// size.
pub type Contribution = (u64, u64, Option<u64>);

pub open spec fn contribution_ids(c: Seq<Contribution>) -> Seq<u64> {
    c.map_values(|t: Contribution| t.0)
}

/// `c` with the file `e` counted, unless its inode already is.
pub open spec fn count_file(c: Seq<Contribution>, e: NamespaceEntry) -> Seq<Contribution> {
    if contribution_ids(c).contains(e.file_id) {
        c
    } else {
        c.push((e.file_id, e.logical_size, e.allocated_size))
    }
}

/// The inodes counted under directory `d`: each file entry below it, in
/// order, its inode counted at its first path only.
pub open spec fn contributions(entries: Seq<NamespaceEntry>, d: Seq<char>) -> Seq<Contribution>
    decreases entries.len(),
{
    if entries.len() == 0 {
        Seq::empty()
    } else {
        let c = contributions(entries.drop_last(), d);
        let e = entries.last();
        if e.entry_kind == EntryKind::File && ancestor_of(d, e.path@) {
            count_file(c, e)
        } else {
            c
        }
    }
}

/// Sum of the logical sizes, in `u64` with wrap-around.
pub open spec fn logical_total(c: Seq<Contribution>) -> u64
    decreases c.len(),
{
    if c.len() == 0 {
        0
    } else {
        logical_total(c.drop_last()).wrapping_add(c.last().1)
    }
}

/// Sum of the allocated sizes, absent as soon as one is absent.
pub open spec fn allocated_total(c: Seq<Contribution>) -> Option<u64>
    decreases c.len(),
{
    if c.len() == 0 {
        Some(0)
    } else {
        match (allocated_total(c.drop_last()), c.last().2) {
            (Some(a), Some(b)) => Some(a.wrapping_add(b)),
            _ => None,
        }
    }
}

/// The directories that get an aggregate: the root and every directory
/// entry.
pub open spec fn aggregate_dirs(entries: Seq<NamespaceEntry>) -> Set<Seq<char>> {
    Set::new(
        |d: Seq<char>|
            d == "."@ || exists|i: int|
                0 <= i < entries.len() && entries[i].entry_kind == EntryKind::Dir && #[trigger] entries[i].path@ == d,
    )
}

/// `a` is the aggregate of directory `a.path` over `entries`.
pub open spec fn aggregate_matches(a: DirectoryAggregate, entries: Seq<NamespaceEntry>) -> bool {
    let c = contributions(entries, a.path@);
    &&& a.unique_inode_logical_total == logical_total(c)
    &&& a.unique_inode_allocated_total == allocated_total(c)
    &&& is_sorted(a.contributing_file_ids@)
    &&& a.contributing_file_ids@.to_multiset() == contribution_ids(c).to_multiset()
}

/// Byte order of the paths of two strings.
pub open spec fn text_lt(a: Seq<char>, b: Seq<char>) -> bool {
    crate::sort::bytes_lt(encode_utf8(a), encode_utf8(b))
}

/// Strictly increasing in byte order.
pub open spec fn strictly_sorted(v: Seq<String>) -> bool {
    forall|i: int, j: int| 0 <= i < j < v.len() ==> #[trigger] text_lt(v[i]@, v[j]@)
}

proof fn lemma_text_eq(a: Seq<char>, b: Seq<char>)
    requires
        encode_utf8(a) == encode_utf8(b),
    ensures
        a == b,
{
    vstd::utf8::encode_utf8_decode_utf8(a);
    vstd::utf8::encode_utf8_decode_utf8(b);
}

/// The position of `target` among the strictly sorted `paths`.
fn find_path(paths: &Vec<String>, target: &str) -> (r: Option<usize>)
    requires
        strictly_sorted(paths@),
    ensures
        match r {
            Some(k) => k < paths@.len() && paths@[k as int]@ == target@,
            None => forall|k: int| 0 <= k < paths@.len() ==> paths@[k]@ != target@,
        },
{
    let t = target.as_bytes();
    let mut lo: usize = 0;
    let mut hi: usize = paths.len();
    while lo < hi
        invariant
            lo <= hi <= paths@.len(),
            t@ == encode_utf8(target@),
            strictly_sorted(paths@),
            forall|k: int| 0 <= k < lo ==> text_lt(#[trigger] paths@[k]@, target@),
            forall|k: int| hi <= k < paths@.len() ==> text_lt(target@, #[trigger] paths@[k]@),
        decreases hi - lo,
    {
        let mid = lo + (hi - lo) / 2;
        let m = paths[mid].as_str().as_bytes();
        if crate::sort::bytes_less(m, t) {
            proof {
                assert forall|k: int| 0 <= k <= mid implies text_lt(#[trigger] paths@[k]@, target@) by {
                    if k < mid {
                        assert(text_lt(paths@[k]@, paths@[mid as int]@));
                        crate::sort::lemma_bytes_lt_transitive(
                            encode_utf8(paths@[k]@),
                            encode_utf8(paths@[mid as int]@),
                            encode_utf8(target@),
                        );
                    }
                }
            }
            lo = mid + 1;
        } else if crate::sort::bytes_less(t, m) {
            proof {
                assert forall|k: int| mid <= k < paths@.len() implies text_lt(target@, #[trigger] paths@[k]@) by {
                    if k > mid {
                        assert(text_lt(paths@[mid as int]@, paths@[k]@));
                        crate::sort::lemma_bytes_lt_transitive(
                            encode_utf8(target@),
                            encode_utf8(paths@[mid as int]@),
                            encode_utf8(paths@[k]@),
                        );
                    }
                }
            }
            hi = mid;
        } else {
            proof {
                crate::sort::lemma_bytes_lt_total(m@, t@);
                lemma_text_eq(paths@[mid as int]@, target@);
            }
            return Some(mid);
        }
    }
    proof {
        assert forall|k: int| 0 <= k < paths@.len() implies paths@[k]@ != target@ by {
            crate::sort::lemma_bytes_lt_irreflexive(encode_utf8(target@));
        }
    }
    None
}

} // verus!

verus! {

/// The views of a list of strings.
pub open spec fn strings_view(v: Seq<String>) -> Seq<Seq<char>> {
    v.map_values(|s: String| s@)
}

/// `.` and the prefixes of `p` that a `/` at a position in `1..i` follows.
pub open spec fn ancestor_seq(p: Seq<char>, i: int) -> Seq<Seq<char>>
    decreases i,
{
    if i <= 1 {
        seq!["."@]
    } else {
        let prev = ancestor_seq(p, i - 1);
        if p[i - 1] == '/' {
            prev.push(p.subrange(0, i - 1))
        } else {
            prev
        }
    }
}

proof fn lemma_ancestor_seq(p: Seq<char>, i: int, d: Seq<char>)
    requires
        1 <= i <= p.len(),
    ensures
        ancestor_seq(p, i).contains(d) <==> (d == "."@ || exists|j: int|
            0 < j < i && p[j] == '/' && #[trigger] p.subrange(0, j) == d),
    decreases i,
{
    broadcast use vstd::seq_lib::lemma_seq_contains_after_push;

    if i <= 1 {
        assert(seq!["."@][0] == "."@);
    } else {
        lemma_ancestor_seq(p, i - 1, d);
        if p[i - 1] == '/' && p.subrange(0, i - 1) == d {
            assert(0 < i - 1 < i && p[i - 1] == '/' && p.subrange(0, i - 1) == d);
        }
    }
}

/// `.` and the prefixes of `p` that a `/` follows, shortest first.
pub open spec fn ancestor_list(p: Seq<char>) -> Seq<Seq<char>> {
    ancestor_seq(p, if p.len() >= 1 { p.len() as int } else { 1 })
}

/// The directories above `path`: `.` and each non-empty prefix that a `/`
/// follows.
fn ancestors(path: &str) -> (r: Vec<String>)
    ensures
        forall|d: Seq<char>| #[trigger] ancestor_of(d, path@) <==> strings_view(r@).contains(d),
        strings_view(r@) == ancestor_list(path@),
{
    let mut out: Vec<String> = Vec::new();
    out.push(owned("."));
    assert(strings_view(out@) =~= ancestor_seq(path@, 1));
    let n = path.unicode_len();
    let mut i: usize = 1;
    while i < n
        invariant
            n == path@.len(),
            1 <= i,
            i <= n || i == 1,
            strings_view(out@) == ancestor_seq(path@, i as int),
        decreases n - i,
    {
        let ghost before = out@;
        if path.get_char(i) == '/' {
            let prefix = path.substring_char(0, i);
            out.push(owned(prefix));
        }
        assert(strings_view(out@) =~= ancestor_seq(path@, i + 1));
        i = i + 1;
    }
    proof {
        assert forall|d: Seq<char>| #[trigger] ancestor_of(d, path@) <==> strings_view(out@).contains(d) by {
            if n >= 1 {
                lemma_ancestor_seq(path@, i as int, d);
                assert(i == n);
            } else {
                assert(strings_view(out@) =~= seq!["."@]);
                assert(strings_view(out@)[0] == "."@);
                if strings_view(out@).contains(d) {
                    let k = choose|k: int| 0 <= k < strings_view(out@).len() && strings_view(out@)[k] == d;
                    assert(k == 0);
                }
            }
        }
    }
    out
}

/// The directories above `path`, nearest first: each non-empty prefix
/// that a `/` follows, longest first, then the root `.`.
pub fn ancestor_directories(path: &str) -> (r: Vec<String>)
    ensures
        strings_view(r@) == ancestor_list(path@).reverse(),
{
    let up = ancestors(path);
    let mut out: Vec<String> = Vec::new();
    let mut k = up.len();
    while k > 0
        invariant
            k <= up@.len(),
            strings_view(up@) == ancestor_list(path@),
            strings_view(out@) == strings_view(up@).subrange(k as int, up@.len() as int).reverse(),
        decreases k,
    {
        let ghost prev = strings_view(out@);
        let ghost whole = strings_view(up@);
        let s = up[k - 1].clone();
        assert(s@ == whole[k - 1]);
        out.push(s);
        assert(strings_view(out@) =~= prev.push(whole[k - 1]));
        k = k - 1;
        let ghost tail = whole.subrange(k as int, whole.len() as int);
        assert(tail.reverse() =~= prev.push(whole[k as int]));
        assert(strings_view(out@) =~= strings_view(up@).subrange(k as int, up@.len() as int).reverse());
    }
    assert(strings_view(up@).subrange(0, up@.len() as int) =~= strings_view(up@));
    out
}

/// `aggs` are the aggregates of `entries`: one per directory that gets
/// one, in strictly increasing byte order of their paths, each computed
/// over `entries`.
pub open spec fn aggregates_of(aggs: Seq<DirectoryAggregate>, entries: Seq<NamespaceEntry>) -> bool {
    &&& strictly_sorted(aggs.map_values(|a: DirectoryAggregate| a.path))
    &&& forall|k: int| 0 <= k < aggs.len() ==> aggregate_dirs(entries).contains(#[trigger] aggs[k].path@)
    &&& forall|d: Seq<char>|
        #[trigger] aggregate_dirs(entries).contains(d) ==> exists|k: int| 0 <= k < aggs.len() && aggs[k].path@ == d
    &&& forall|k: int| 0 <= k < aggs.len() ==> aggregate_matches(#[trigger] aggs[k], entries)
}

/// Unique-inode aggregates of every directory of `entries` and of the root
/// `.`, in byte order of their paths. Each file inode below a directory
/// counts once however many paths reach it; the allocated total is absent
/// when any counted inode has no allocated size.
pub fn build_aggregates(entries: &[NamespaceEntry]) -> (r: Vec<DirectoryAggregate>)
    ensures
        strictly_sorted(r@.map_values(|a: DirectoryAggregate| a.path)),
        forall|k: int| 0 <= k < r@.len() ==> aggregate_dirs(entries@).contains(#[trigger] r@[k].path@),
        forall|d: Seq<char>|
            #[trigger] aggregate_dirs(entries@).contains(d) ==> exists|k: int| 0 <= k < r@.len() && r@[k].path@ == d,
        forall|k: int| 0 <= k < r@.len() ==> aggregate_matches(#[trigger] r@[k], entries@),
{
    let paths = aggregate_paths(entries);
    let np = paths.len();
    let ghost pv = paths@;
    let mut contributors: Vec<Vec<Contribution>> = Vec::new();
    let mut seen: Vec<HashSet<u64>> = Vec::new();
    let mut k: usize = 0;
    while k < np
        invariant
            np == paths@.len(),
            k <= np,
            contributors@.len() == k,
            seen@.len() == k,
            forall|q: int| 0 <= q < k ==> (#[trigger] contributors@[q])@ == Seq::<Contribution>::empty(),
            forall|q: int| 0 <= q < k ==> (#[trigger] seen@[q])@ == Set::<u64>::empty(),
        decreases np - k,
    {
        contributors.push(Vec::new());
        seen.push(HashSet::new());
        k = k + 1;
    }
    let mut j: usize = 0;
    while j < entries.len()
        invariant
            np == paths@.len(),
            strictly_sorted(paths@),
            j <= entries@.len(),
            contributors@.len() == np,
            seen@.len() == np,
            forall|q: int| 0 <= q < np ==> (#[trigger] contributors@[q])@ == contributions(entries@.subrange(0, j as int), paths@[q]@),
            forall|q: int, x: u64| #![trigger seen@[q]@.contains(x)] 0 <= q < np ==> (seen@[q]@.contains(x) <==> contribution_ids(contributors@[q]@).contains(x)),
        decreases entries@.len() - j,
    {
        let e = &entries[j];
        let ghost prefix = entries@.subrange(0, j as int);
        let ghost next = entries@.subrange(0, j + 1);
        assert(next.drop_last() =~= prefix);
        assert(next.last() == *e);
        if e.entry_kind == EntryKind::File {
            let anc = ancestors(e.path.as_str());
            let ghost av = strings_view(anc@);
            let ghost before = contributors@;
            assert(av.subrange(0, 0) =~= Seq::<Seq<char>>::empty());
            let mut a: usize = 0;
            while a < anc.len()
                invariant
                    np == paths@.len(),
                    strictly_sorted(paths@),
                    contributors@.len() == np,
                    seen@.len() == np,
                    a <= anc@.len(),
                    av == strings_view(anc@),
                    before.len() == np,
                    forall|q: int| 0 <= q < np ==> (#[trigger] before[q])@ == contributions(prefix, paths@[q]@),
                    forall|q: int| 0 <= q < np ==> (#[trigger] contributors@[q])@ == if av.subrange(0, a as int).contains(paths@[q]@) {
                        count_file(before[q]@, *e)
                    } else {
                        before[q]@
                    },
                    forall|q: int, x: u64| #![trigger seen@[q]@.contains(x)] 0 <= q < np ==> (seen@[q]@.contains(x) <==> contribution_ids(contributors@[q]@).contains(x)),
                decreases anc@.len() - a,
            {
                proof {
                    assert(av.subrange(0, a + 1) =~= av.subrange(0, a as int).push(av[a as int]));
                    assert(av[a as int] == anc@[a as int]@);
                }
                let found = find_path(&paths, anc[a].as_str());
                match found {
                    Some(q) => {
                        let ghost cq = contributors@[q as int]@;
                        let ghost old_seen = seen@;
                        let ghost old_contrib = contributors@;
                        proof {
                            broadcast use vstd::seq_lib::lemma_seq_contains_after_push;

                            let bq = before[q as int]@;
                            assert(bq == contributions(prefix, paths@[q as int]@));
                            assert(cq == if av.subrange(0, a as int).contains(paths@[q as int]@) {
                                count_file(bq, *e)
                            } else {
                                bq
                            });
                            if av.subrange(0, a as int).contains(paths@[q as int]@) {
                                if !contribution_ids(bq).contains(e.file_id) {
                                    assert(contribution_ids(bq.push((e.file_id, e.logical_size, e.allocated_size)))
                                        =~= contribution_ids(bq).push(e.file_id));
                                }
                                assert(contribution_ids(cq).contains(e.file_id));
                            }
                        }
                        let ghost bq = before[q as int]@;
                        if seen[q].insert(e.file_id) {
                            contributors[q].push((e.file_id, e.logical_size, e.allocated_size));
                            proof {
                                assert(!contribution_ids(cq).contains(e.file_id)) by {
                                    assert(!old_seen[q as int]@.contains(e.file_id));
                                }
                                assert(contribution_ids(contributors@[q as int]@) =~= contribution_ids(cq).push(e.file_id));
                                assert(cq == bq);
                                assert(contributors@[q as int]@ == count_file(bq, *e));
                            }
                        } else {
                            proof {
                                assert(old_seen[q as int]@.contains(e.file_id));
                                assert(contribution_ids(cq).contains(e.file_id));
                                assert(contributors@[q as int]@ == cq);
                                if !av.subrange(0, a as int).contains(paths@[q as int]@) {
                                    assert(cq == bq);
                                }
                                assert(contributors@[q as int]@ == count_file(bq, *e));
                            }
                        }
                        proof {
                            broadcast use vstd::seq_lib::lemma_seq_contains_after_push;

                            assert forall|t: int| 0 <= t < np && t != q implies old_contrib[t]@ == if av.subrange(
                                0,
                                a as int,
                            ).contains(paths@[t]@) {
                                count_file(before[t]@, *e)
                            } else {
                                before[t]@
                            } by {
                                assert(old_contrib[t] == old_contrib[t]);
                            }
                            assert forall|t: int| 0 <= t < np implies (#[trigger] contributors@[t])@ == if av.subrange(
                                0,
                                a + 1,
                            ).contains(paths@[t]@) {
                                count_file(before[t]@, *e)
                            } else {
                                before[t]@
                            } by {
                                if t != q {
                                    assert(contributors@[t] == old_contrib[t]);
                                    if paths@[t]@ == paths@[q as int]@ {
                                        if t < q {
                                            assert(text_lt(paths@[t]@, paths@[q as int]@));
                                        } else {
                                            assert(text_lt(paths@[q as int]@, paths@[t]@));
                                        }
                                        crate::sort::lemma_bytes_lt_irreflexive(encode_utf8(paths@[t]@));
                                    }
                                    assert(av[a as int] != paths@[t]@);
                                    assert(av.subrange(0, a + 1).contains(paths@[t]@) == av.subrange(0, a as int).contains(
                                        paths@[t]@,
                                    ));
                                } else {
                                    assert(av.subrange(0, a + 1).contains(paths@[t]@));
                                }
                            }
                            assert forall|t: int, x: u64| #![trigger seen@[t]@.contains(x)] 0 <= t < np implies (seen@[t]@.contains(x)
                                <==> contribution_ids(contributors@[t]@).contains(x)) by {
                                if t != q {
                                    assert(seen@[t] == old_seen[t]);
                                    assert(contributors@[t] == old_contrib[t]);
                                }
                            }
                        }
                    },
                    None => {
                        proof {
                            broadcast use vstd::seq_lib::lemma_seq_contains_after_push;

                        }
                    },
                }
                a = a + 1;
            }
            proof {
                assert(av.subrange(0, av.len() as int) =~= av);
                assert forall|q: int| 0 <= q < np implies (#[trigger] contributors@[q])@ == contributions(next, paths@[q]@) by {
                    assert(ancestor_of(paths@[q]@, e.path@) <==> av.contains(paths@[q]@));
                }
            }
        } else {
            assert forall|q: int| 0 <= q < np implies (#[trigger] contributors@[q])@ == contributions(next, paths@[q]@) by {}
        }
        j = j + 1;
    }
    assert(entries@.subrange(0, entries@.len() as int) =~= entries@);
    let mut out: Vec<DirectoryAggregate> = Vec::new();
    let mut q: usize = 0;
    while q < np
        invariant
            np == paths@.len(),
            q <= np,
            contributors@.len() == np,
            forall|t: int| 0 <= t < np ==> (#[trigger] contributors@[t])@ == contributions(entries@, paths@[t]@),
            out@.len() == q,
            forall|t: int| 0 <= t < q ==> (#[trigger] out@[t]).path@ == paths@[t]@,
            forall|t: int| 0 <= t < q ==> aggregate_matches(#[trigger] out@[t], entries@),
        decreases np - q,
    {
        let agg = aggregate_of(paths[q].clone(), &contributors[q]);
        out.push(agg);
        q = q + 1;
    }
    proof {
        let ov = out@.map_values(|a: DirectoryAggregate| a.path);
        assert forall|i: int, t: int| 0 <= i < t < ov.len() implies #[trigger] text_lt(ov[i]@, ov[t]@) by {
            assert(ov[i]@ == paths@[i]@ && ov[t]@ == paths@[t]@);
        }
        assert forall|d: Seq<char>| #[trigger] aggregate_dirs(entries@).contains(d) implies exists|k: int|
            0 <= k < out@.len() && out@[k].path@ == d by {
            let k = choose|k: int| 0 <= k < paths@.len() && paths@[k]@ == d;
            assert(out@[k].path@ == paths@[k]@);
        }
    }
    out
}

/// The aggregate of directory `path` from its counted inodes.
fn aggregate_of(path: String, c: &Vec<Contribution>) -> (r: DirectoryAggregate)
    ensures
        r.path == path,
        r.unique_inode_logical_total == logical_total(c@),
        r.unique_inode_allocated_total == allocated_total(c@),
        is_sorted(r.contributing_file_ids@),
        r.contributing_file_ids@.to_multiset() == contribution_ids(c@).to_multiset(),
{
    let mut logical: u64 = 0;
    let mut allocated: Option<u64> = Some(0);
    let mut ids: Vec<u64> = Vec::new();
    let mut i: usize = 0;
    while i < c.len()
        invariant
            i <= c@.len(),
            logical == logical_total(c@.subrange(0, i as int)),
            allocated == allocated_total(c@.subrange(0, i as int)),
            ids@ == contribution_ids(c@.subrange(0, i as int)),
        decreases c@.len() - i,
    {
        let (id, l, a) = c[i];
        let ghost pre = c@.subrange(0, i as int);
        let ghost nxt = c@.subrange(0, i + 1);
        assert(nxt.drop_last() =~= pre);
        logical = logical.wrapping_add(l);
        allocated = match (allocated, a) {
            (Some(x), Some(y)) => Some(x.wrapping_add(y)),
            _ => None,
        };
        ids.push(id);
        assert(ids@ =~= contribution_ids(nxt));
        i = i + 1;
    }
    assert(c@.subrange(0, c@.len() as int) =~= c@);
    let sorted_ids = merge_sort(ids);
    DirectoryAggregate {
        path,
        unique_inode_logical_total: logical,
        contributing_file_ids: sorted_ids,
        unique_inode_allocated_total: allocated,
    }
}

/// The root and the directory paths of `entries`, strictly increasing.
fn aggregate_paths(entries: &[NamespaceEntry]) -> (r: Vec<String>)
    ensures
        strictly_sorted(r@),
        forall|k: int| 0 <= k < r@.len() ==> aggregate_dirs(entries@).contains(#[trigger] r@[k]@),
        forall|d: Seq<char>|
            #[trigger] aggregate_dirs(entries@).contains(d) ==> exists|k: int| 0 <= k < r@.len() && r@[k]@ == d,
{
    broadcast use vstd::seq_lib::group_to_multiset_ensures;

    let mut all: Vec<String> = Vec::new();
    all.push(owned("."));
    let mut j: usize = 0;
    while j < entries.len()
        invariant
            j <= entries@.len(),
            all@.len() >= 1,
            all@[0]@ == "."@,
            forall|k: int| 0 <= k < all@.len() ==> aggregate_dirs(entries@).contains(#[trigger] all@[k]@),
            forall|i: int|
                0 <= i < j && #[trigger] entries@[i].entry_kind == EntryKind::Dir ==> strings_view(all@).contains(entries@[i].path@),
        decreases entries@.len() - j,
    {
        broadcast use vstd::seq_lib::lemma_seq_contains_after_push;

        let ghost before = all@;
        if entries[j].entry_kind == EntryKind::Dir {
            all.push(entries[j].path.clone());
            assert(strings_view(all@) =~= strings_view(before).push(entries@[j as int].path@));
        }
        j = j + 1;
    }
    let ghost unsorted = all@;
    let sorted = merge_sort(all);
    proof {
        assert forall|k: int| 0 <= k < unsorted.len() implies sorted@.contains(#[trigger] unsorted[k]) by {
            assert(unsorted.to_multiset().count(unsorted[k]) > 0);
        }
        assert forall|k: int| 0 <= k < sorted@.len() implies unsorted.contains(#[trigger] sorted@[k]) by {
            assert(sorted@.to_multiset().count(sorted@[k]) > 0);
        }
    }
    let mut out: Vec<String> = Vec::new();
    let mut i: usize = 0;
    while i < sorted.len()
        invariant
            i <= sorted@.len(),
            is_sorted(sorted@),
            strictly_sorted(out@),
            out@.len() > 0 ==> i > 0 && out@.last()@ == sorted@[i - 1]@,
            i > 0 ==> out@.len() > 0,
            forall|k: int| 0 <= k < out@.len() ==> strings_view(sorted@.subrange(0, i as int)).contains(#[trigger] out@[k]@),
            forall|t: int| 0 <= t < i ==> strings_view(out@).contains(#[trigger] sorted@[t]@),
        decreases sorted@.len() - i,
    {
        broadcast use vstd::seq_lib::lemma_seq_contains_after_push;

        let s = &sorted[i];
        let ghost before = out@;
        proof {
            assert(strings_view(sorted@.subrange(0, i + 1)) =~= strings_view(sorted@.subrange(0, i as int)).push(s@));
        }
        let fresh = if out.len() == 0 {
            true
        } else {
            let last = out.len() - 1;
            crate::sort::bytes_less(out[last].as_str().as_bytes(), s.as_str().as_bytes())
        };
        if fresh {
            out.push(s.clone());
            proof {
                assert(strings_view(out@) =~= strings_view(before).push(s@));
                assert forall|a: int, b: int| 0 <= a < b < out@.len() implies #[trigger] text_lt(out@[a]@, out@[b]@) by {
                    if b == out@.len() - 1 && a < b - 1 {
                        assert(text_lt(before[a]@, before.last()@));
                        crate::sort::lemma_bytes_lt_transitive(
                            encode_utf8(before[a]@),
                            encode_utf8(before.last()@),
                            encode_utf8(s@),
                        );
                    } else if b < out@.len() - 1 {
                        assert(out@[a] == before[a] && out@[b] == before[b]);
                    }
                }
                assert forall|k: int| 0 <= k < out@.len() implies strings_view(sorted@.subrange(0, i + 1)).contains(#[trigger] out@[k]@) by {
                    if k < before.len() {
                        assert(out@[k] == before[k]);
                    }
                }
            }
        } else {
            proof {
                let lastv = out@.last()@;
                assert(String::sorts_before(sorted@[i - 1], sorted@[i as int]));
                crate::sort::lemma_bytes_lt_total(encode_utf8(lastv), encode_utf8(s@));
                lemma_text_eq(lastv, s@);
                assert(strings_view(out@)[out@.len() - 1] == s@);
            }
        }
        i = i + 1;
    }
    proof {
        assert(sorted@.subrange(0, sorted@.len() as int) =~= sorted@);
        assert forall|k: int| 0 <= k < out@.len() implies aggregate_dirs(entries@).contains(#[trigger] out@[k]@) by {
            assert(strings_view(sorted@).contains(out@[k]@));
            let t = choose|t: int| 0 <= t < sorted@.len() && #[trigger] strings_view(sorted@)[t] == out@[k]@;
            assert(unsorted.contains(sorted@[t]));
            let u = choose|u: int| 0 <= u < unsorted.len() && unsorted[u] == sorted@[t];
            assert(aggregate_dirs(entries@).contains(unsorted[u]@));
        }
        assert forall|d: Seq<char>| #[trigger] aggregate_dirs(entries@).contains(d) implies exists|k: int|
            0 <= k < out@.len() && out@[k]@ == d by {
            let u: int = if d == "."@ {
                0
            } else {
                let i = choose|i: int|
                    0 <= i < entries@.len() && entries@[i].entry_kind == EntryKind::Dir && #[trigger] entries@[i].path@ == d;
                assert(strings_view(unsorted).contains(entries@[i].path@));
                choose|k: int| 0 <= k < unsorted.len() && #[trigger] strings_view(unsorted)[k] == entries@[i].path@
            };
            assert(unsorted[u]@ == d);
            assert(sorted@.contains(unsorted[u]));
            let t = choose|t: int| 0 <= t < sorted@.len() && sorted@[t] == unsorted[u];
            assert(strings_view(out@).contains(sorted@[t]@));
            let k = choose|k: int| 0 <= k < out@.len() && #[trigger] strings_view(out@)[k] == sorted@[t]@;
            assert(out@[k]@ == d);
        }
    }
    out
}

// ---- the namespace ---------------------------------------------------------- //

impl Sortable for NamespaceEntry {
    open spec fn sorts_before(a: NamespaceEntry, b: NamespaceEntry) -> bool {
        bytes_le(encode_utf8(a.path@), encode_utf8(b.path@))
    }

    proof fn lemma_sorts_before_total(a: NamespaceEntry, b: NamespaceEntry) {
        lemma_bytes_le_total_preorder(encode_utf8(a.path@), encode_utf8(b.path@), encode_utf8(b.path@));
    }

    proof fn lemma_sorts_before_transitive(a: NamespaceEntry, b: NamespaceEntry, c: NamespaceEntry) {
        lemma_bytes_le_total_preorder(encode_utf8(a.path@), encode_utf8(b.path@), encode_utf8(c.path@));
    }

    fn sorts_before_exec(&self, other: &NamespaceEntry) -> (r: bool) {
        !crate::sort::bytes_less(other.path.as_str().as_bytes(), self.path.as_str().as_bytes())
    }
}

/// The namespace of one volume from its decoded records: the entries in
/// byte order of their paths, the per-directory aggregates, and the
/// subtrees the walk did not enter.
///
/// The entries are those of the walk from the root directory over
/// [`records_source`] of the dump's records; the aggregates are computed
/// over the sorted entries.
/// `entries`, `aggregates` and `skips` are the namespace of the records
/// of `dump`: the entries the walk from the root emits, sorted by path;
/// one aggregate per directory that holds a regular file, in path order;
/// and the subtrees the walk refused, in walk order.
pub open spec fn namespace_ok(
    entries: Seq<NamespaceEntry>,
    aggregates: Seq<DirectoryAggregate>,
    skips: Seq<WalkSkip>,
    dump: FsRecordDump,
) -> bool {
    let st = ns_root(records_source(dump.records@), Seq::empty(), Seq::empty());
    &&& is_sorted(entries)
    &&& exists|u: Seq<NamespaceEntry>| entries_view(u) == st.out && entries.to_multiset() == u.to_multiset()
    &&& skips_view(skips) == st.skips
    &&& strictly_sorted(aggregates.map_values(|a: DirectoryAggregate| a.path))
    &&& forall|k: int| 0 <= k < aggregates.len() ==> aggregate_dirs(entries).contains(#[trigger] aggregates[k].path@)
    &&& forall|d: Seq<char>|
        #[trigger] aggregate_dirs(entries).contains(d) ==> exists|k: int| 0 <= k < aggregates.len() && aggregates[k].path@ == d
    &&& forall|k: int| 0 <= k < aggregates.len() ==> aggregate_matches(#[trigger] aggregates[k], entries)
}

pub fn build_namespace(dump: &FsRecordDump) -> (r: (Vec<NamespaceEntry>, Vec<DirectoryAggregate>, Vec<WalkSkip>))
    ensures
        namespace_ok(r.0@, r.1@, r.2@, *dump),
{
    let index = NamespaceIndex::from_records(dump.records.as_slice());
    assert(index.source() =~= records_source(dump.records@));
    let mut entries: Vec<NamespaceEntry> = Vec::new();
    let mut depth_truncations: Vec<WalkSkip> = Vec::new();
    assert(entries_view(entries@) =~= Seq::<EntryModel>::empty());
    assert(skips_view(depth_truncations@) =~= Seq::<SkipModel>::empty());
    index.walk_into(&mut entries, &mut depth_truncations);
    let ghost unsorted = entries@;
    let sorted = merge_sort(entries);
    let aggregates = build_aggregates(sorted.as_slice());
    (sorted, aggregates, depth_truncations)
}

} // verus!
