//! Decoding of the buffers `getattrlistbulk(2)` fills: one record per
//! directory entry, each a `u32` length, the returned `attribute_set_t`,
//! then the requested attributes in bit order.
//!
//! Reading the directory is the caller's work; this module turns the
//! bytes the kernel wrote into entries.

use vstd::prelude::*;
use vstd::utf8::{decode_utf8, valid_utf8};

use crate::block_io::{le32, le64, le_u32, le_u64};
use crate::namespace::EntryKind;
use crate::text::{owned, utf8_to_string};

verus! {

pub const ATTR_CMN_NAME: u32 = 0x0000_0001;
pub const ATTR_CMN_DEVID: u32 = 0x0000_0002;
pub const ATTR_CMN_OBJTYPE: u32 = 0x0000_0008;
pub const ATTR_CMN_FILEID: u32 = 0x0200_0000;
pub const ATTR_CMN_ERROR: u32 = 0x2000_0000;
pub const ATTR_FILE_TOTALSIZE: u32 = 0x0000_0002;
pub const ATTR_FILE_ALLOCSIZE: u32 = 0x0000_0004;

/// `fsobj_type_t` values.
pub const VREG: u32 = 1;
pub const VDIR: u32 = 2;
pub const VLNK: u32 = 5;

/// One directory entry as the bulk reader reports it.
#[derive(Debug, Clone, PartialEq, Eq)]
pub struct BulkEntry {
    pub name: String,
    pub kind: EntryKind,
    pub file_id: u64,
    pub logical_size: u64,
    /// Allocated bytes (`st_blocks * 512`).
    pub allocated_bytes: u64,
    pub dev_id: u32,
}

/// Why a bulk buffer did not decode.
#[derive(Debug, Clone, PartialEq, Eq)]
pub enum BulkParseError {
    /// A field runs past the end of its record.
    Truncated,
    /// The name reference's offset overflows.
    NameOffsetOverflow,
    /// The name reference is empty or points outside its record.
    NameOutOfBounds,
    /// The name is not UTF-8.
    NameNotUtf8,
    /// A record length is below the minimum or runs past the buffer.
    MalformedLength,
}

impl BulkParseError {
    /// The text the error reads as.
    pub fn message(&self) -> (r: String)
        ensures
            r@ == bulk_error_text(*self),
    {
        match self {
            BulkParseError::Truncated => owned("getattrlistbulk entry truncated"),
            BulkParseError::NameOffsetOverflow => owned("name attrreference offset overflow"),
            BulkParseError::NameOutOfBounds => owned("name attrreference points outside entry buffer"),
            BulkParseError::NameNotUtf8 => owned("entry name is not valid UTF-8"),
            BulkParseError::MalformedLength => owned("getattrlistbulk returned malformed entry length"),
        }
    }
}

pub open spec fn bulk_error_text(e: BulkParseError) -> Seq<char> {
    match e {
        BulkParseError::Truncated => "getattrlistbulk entry truncated"@,
        BulkParseError::NameOffsetOverflow => "name attrreference offset overflow"@,
        BulkParseError::NameOutOfBounds => "name attrreference points outside entry buffer"@,
        BulkParseError::NameNotUtf8 => "entry name is not valid UTF-8"@,
        BulkParseError::MalformedLength => "getattrlistbulk returned malformed entry length"@,
    }
}

/// The entry kind of an `fsobj_type_t`.
pub open spec fn kind_of_obj_type(t: u32) -> EntryKind {
    if t == VREG {
        EntryKind::File
    } else if t == VDIR {
        EntryKind::Dir
    } else if t == VLNK {
        EntryKind::Symlink
    } else {
        EntryKind::Other
    }
}

pub fn entry_kind_from_obj_type(obj_type: u32) -> (r: EntryKind)
    ensures
        r == kind_of_obj_type(obj_type),
{
    if obj_type == VREG {
        EntryKind::File
    } else if obj_type == VDIR {
        EntryKind::Dir
    } else if obj_type == VLNK {
        EntryKind::Symlink
    } else {
        EntryKind::Other
    }
}

// ---- the record layout ---------------------------------------------------------- //

/// `c` rounded up to a multiple of 8.
pub open spec fn align8(c: int) -> int {
    (c + 7) / 8 * 8
}

/// The returned common attributes.
pub open spec fn returned_common(e: Seq<u8>) -> u32 {
    le32(e, 4) as u32
}

/// The returned file attributes.
pub open spec fn returned_file(e: Seq<u8>) -> u32 {
    le32(e, 16) as u32
}

pub open spec fn bit_set(bits: u32, bit: u32) -> bool {
    bits & bit != 0
}

/// Where each field of a record sits, given what was returned.
pub open spec fn name_end(rc: u32) -> int {
    if bit_set(rc, ATTR_CMN_NAME) { 32 } else { 24 }
}

pub open spec fn devid_end(rc: u32) -> int {
    name_end(rc) + if bit_set(rc, ATTR_CMN_DEVID) { 4int } else { 0int }
}

pub open spec fn objtype_end(rc: u32) -> int {
    devid_end(rc) + if bit_set(rc, ATTR_CMN_OBJTYPE) { 4int } else { 0int }
}

pub open spec fn fileid_at(rc: u32) -> int {
    align8(objtype_end(rc))
}

pub open spec fn fileid_end(rc: u32) -> int {
    if bit_set(rc, ATTR_CMN_FILEID) { fileid_at(rc) + 8 } else { objtype_end(rc) }
}

pub open spec fn error_end(rc: u32) -> int {
    fileid_end(rc) + if bit_set(rc, ATTR_CMN_ERROR) { 4int } else { 0int }
}

pub open spec fn totalsize_at(rc: u32) -> int {
    align8(error_end(rc))
}

pub open spec fn totalsize_end(rc: u32, rf: u32) -> int {
    if bit_set(rf, ATTR_FILE_TOTALSIZE) { totalsize_at(rc) + 8 } else { error_end(rc) }
}

pub open spec fn allocsize_at(rc: u32, rf: u32) -> int {
    align8(totalsize_end(rc, rf))
}

/// A field after the name runs past the record.
pub open spec fn tail_truncated(e: Seq<u8>) -> bool {
    let rc = returned_common(e);
    let rf = returned_file(e);
    ||| bit_set(rc, ATTR_CMN_DEVID) && name_end(rc) + 4 > e.len()
    ||| bit_set(rc, ATTR_CMN_OBJTYPE) && devid_end(rc) + 4 > e.len()
    ||| bit_set(rc, ATTR_CMN_FILEID) && fileid_at(rc) + 8 > e.len()
    ||| bit_set(rc, ATTR_CMN_ERROR) && fileid_end(rc) + 4 > e.len()
    ||| bit_set(rf, ATTR_FILE_TOTALSIZE) && totalsize_at(rc) + 8 > e.len()
    ||| bit_set(rf, ATTR_FILE_ALLOCSIZE) && allocsize_at(rc, rf) + 8 > e.len()
}

/// The name reference's signed start (from the reference at 24) and its
/// length, including the trailing NUL.
pub open spec fn name_start(e: Seq<u8>) -> int {
    24 + (le32(e, 24) as u32 as i32)
}

pub open spec fn name_length(e: Seq<u8>) -> u32 {
    le32(e, 28) as u32
}

/// The name's start as the reader uses it: the signed start taken as a
/// `usize`.
pub open spec fn name_start_usize(e: Seq<u8>) -> usize {
    (name_start(e) as isize) as usize
}

/// The name bytes, without one trailing NUL.
pub open spec fn name_bytes(e: Seq<u8>) -> Seq<u8> {
    let s = name_start_usize(e) as int;
    let n = name_length(e) as int;
    let b = e.subrange(s, s + n);
    if b.len() > 0 && b.last() == 0 {
        b.drop_last()
    } else {
        b
    }
}

/// A record whose name reference ends past the top of the address space:
/// the reader cannot take that slice.
pub open spec fn name_reference_wraps(e: Seq<u8>) -> bool {
    &&& e.len() >= 32
    &&& bit_set(returned_common(e), ATTR_CMN_NAME)
    &&& name_start(e) <= isize::MAX
    &&& name_start_usize(e) + name_length(e) > usize::MAX
}

/// The fields of a record that decoded.
pub open spec fn entry_of(e: Seq<u8>) -> BulkEntryModel {
    let rc = returned_common(e);
    let rf = returned_file(e);
    let kind = kind_of_obj_type(if bit_set(rc, ATTR_CMN_OBJTYPE) { le32(e, devid_end(rc)) as u32 } else { 0 });
    BulkEntryModel {
        name: decode_utf8(name_bytes(e)),
        kind,
        file_id: if bit_set(rc, ATTR_CMN_FILEID) { le64(e, fileid_at(rc)) as u64 } else { 0 },
        logical_size: if kind == EntryKind::File && bit_set(rf, ATTR_FILE_TOTALSIZE) {
            le64(e, totalsize_at(rc)) as u64
        } else {
            0
        },
        allocated_bytes: if kind == EntryKind::File && bit_set(rf, ATTR_FILE_ALLOCSIZE) {
            le64(e, allocsize_at(rc, rf)) as u64
        } else {
            0
        },
        dev_id: if bit_set(rc, ATTR_CMN_DEVID) { le32(e, name_end(rc)) as u32 } else { 0 },
    }
}

/// A decoded entry as the contract sees it.
pub struct BulkEntryModel {
    pub name: Seq<char>,
    pub kind: EntryKind,
    pub file_id: u64,
    pub logical_size: u64,
    pub allocated_bytes: u64,
    pub dev_id: u32,
}

pub open spec fn bulk_model(b: BulkEntry) -> BulkEntryModel {
    BulkEntryModel {
        name: b.name@,
        kind: b.kind,
        file_id: b.file_id,
        logical_size: b.logical_size,
        allocated_bytes: b.allocated_bytes,
        dev_id: b.dev_id,
    }
}

/// What decoding record `e` gives: an error, `None` for a record the
/// kernel flagged with an error or that carries no name, or the entry.
/// Fields are read in record order, so the first failing one decides the
/// error.
pub open spec fn parse_outcome(e: Seq<u8>) -> Result<Option<BulkEntryModel>, BulkParseError> {
    let rc = returned_common(e);
    if e.len() < 24 {
        Err(BulkParseError::Truncated)
    } else if bit_set(rc, ATTR_CMN_NAME) && e.len() < 32 {
        Err(BulkParseError::Truncated)
    } else if bit_set(rc, ATTR_CMN_NAME) && name_start(e) > isize::MAX {
        Err(BulkParseError::NameOffsetOverflow)
    } else if bit_set(rc, ATTR_CMN_NAME) && (name_length(e) == 0 || name_start_usize(e) + name_length(e) > e.len()) {
        Err(BulkParseError::NameOutOfBounds)
    } else if bit_set(rc, ATTR_CMN_NAME) && !valid_utf8(name_bytes(e)) {
        Err(BulkParseError::NameNotUtf8)
    } else if tail_truncated(e) {
        Err(BulkParseError::Truncated)
    } else if bit_set(rc, ATTR_CMN_ERROR) && le32(e, fileid_end(rc)) != 0 {
        Ok(None)
    } else if !bit_set(rc, ATTR_CMN_NAME) {
        Ok(None)
    } else {
        Ok(Some(entry_of(e)))
    }
}

pub open spec fn outcome_matches(r: Result<Option<BulkEntry>, BulkParseError>, s: Result<Option<BulkEntryModel>, BulkParseError>) -> bool {
    match (r, s) {
        (Ok(None), Ok(None)) => true,
        (Ok(Some(b)), Ok(Some(m))) => bulk_model(b) == m,
        (Err(a), Err(b)) => a == b,
        _ => false,
    }
}

// ---- decoding one record ------------------------------------------------------- //

fn read_u32_at(buf: &[u8], offset: u64) -> (r: Option<u32>)
    ensures
        offset + 4 <= buf@.len() ==> r == Some(le32(buf@, offset as int) as u32),
        offset + 4 > buf@.len() ==> r is None,
{
    let len = buf.len() as u64;
    if offset > len || len - offset < 4 {
        return None;
    }
    Some(le_u32(buf, offset as usize))
}

fn read_u64_at(buf: &[u8], offset: u64) -> (r: Option<u64>)
    ensures
        offset + 8 <= buf@.len() ==> r == Some(le64(buf@, offset as int) as u64),
        offset + 8 > buf@.len() ==> r is None,
{
    let len = buf.len() as u64;
    if offset > len || len - offset < 8 {
        return None;
    }
    Some(le_u64(buf, offset as usize))
}

fn align_up8(c: u64) -> (r: u64)
    requires
        c <= 0x1_0000_0000_0000,
    ensures
        r == align8(c as int),
{
    let d = c + 7;
    let r = d & !7u64;
    assert((d & !7u64) == d / 8 * 8) by (bit_vector);
    r
}

/// Decodes one record, as [`parse_outcome`] says.
pub fn parse_entry(entry: &[u8]) -> (r: Result<Option<BulkEntry>, BulkParseError>)
    requires
        entry@.len() <= 0xffff_ffff,
        !name_reference_wraps(entry@),
    ensures
        outcome_matches(r, parse_outcome(entry@)),
{
    let e = entry;
    let rc = match read_u32_at(e, 4) {
        Some(v) => v,
        None => {
            return Err(BulkParseError::Truncated);
        },
    };
    if read_u32_at(e, 8).is_none() || read_u32_at(e, 12).is_none() {
        return Err(BulkParseError::Truncated);
    }
    let rf = match read_u32_at(e, 16) {
        Some(v) => v,
        None => {
            return Err(BulkParseError::Truncated);
        },
    };
    if read_u32_at(e, 20).is_none() {
        return Err(BulkParseError::Truncated);
    }
    let mut cursor: u64 = 24;
    let mut name: Option<String> = None;
    if rc & ATTR_CMN_NAME != 0 {
        let data_offset = match read_u32_at(e, 24) {
            Some(v) => v as i32,
            None => {
                return Err(BulkParseError::Truncated);
            },
        };
        let length = match read_u32_at(e, 28) {
            Some(v) => v as usize,
            None => {
                return Err(BulkParseError::Truncated);
            },
        };
        cursor = 32;
        let start = match 24isize.checked_add(data_offset as isize) {
            Some(s) => s as usize,
            None => {
                return Err(BulkParseError::NameOffsetOverflow);
            },
        };
        assert(start == name_start_usize(e@));
        if length == 0 || start + length > e.len() {
            return Err(BulkParseError::NameOutOfBounds);
        }
        let bytes = crate::fs_record_body::slice_range(e, start, start + length);
        let trimmed = if bytes[length - 1] == 0 {
            crate::fs_record_body::slice_range(bytes, 0, length - 1)
        } else {
            bytes
        };
        assert(trimmed@ =~= name_bytes(e@));
        match utf8_to_string(trimmed) {
            Some(s) => {
                name = Some(s);
            },
            None => {
                return Err(BulkParseError::NameNotUtf8);
            },
        }
    }
    assert(cursor == name_end(rc));
    let mut dev_id: u32 = 0;
    if rc & ATTR_CMN_DEVID != 0 {
        dev_id = match read_u32_at(e, cursor) {
            Some(v) => v,
            None => {
                return Err(BulkParseError::Truncated);
            },
        };
        cursor = cursor + 4;
    }
    assert(cursor == devid_end(rc));
    let mut obj_type: u32 = 0;
    if rc & ATTR_CMN_OBJTYPE != 0 {
        obj_type = match read_u32_at(e, cursor) {
            Some(v) => v,
            None => {
                return Err(BulkParseError::Truncated);
            },
        };
        cursor = cursor + 4;
    }
    assert(cursor == objtype_end(rc));
    let mut file_id: u64 = 0;
    if rc & ATTR_CMN_FILEID != 0 {
        cursor = align_up8(cursor);
        file_id = match read_u64_at(e, cursor) {
            Some(v) => v,
            None => {
                return Err(BulkParseError::Truncated);
            },
        };
        cursor = cursor + 8;
    }
    assert(cursor == fileid_end(rc));
    let mut had_error = false;
    if rc & ATTR_CMN_ERROR != 0 {
        let err = match read_u32_at(e, cursor) {
            Some(v) => v,
            None => {
                return Err(BulkParseError::Truncated);
            },
        };
        cursor = cursor + 4;
        if err != 0 {
            had_error = true;
        }
    }
    assert(cursor == error_end(rc));
    let mut logical_size: u64 = 0;
    if rf & ATTR_FILE_TOTALSIZE != 0 {
        cursor = align_up8(cursor);
        logical_size = match read_u64_at(e, cursor) {
            Some(v) => v,
            None => {
                return Err(BulkParseError::Truncated);
            },
        };
        cursor = cursor + 8;
    }
    assert(cursor == totalsize_end(rc, rf));
    let mut allocated_bytes: u64 = 0;
    if rf & ATTR_FILE_ALLOCSIZE != 0 {
        cursor = align_up8(cursor);
        allocated_bytes = match read_u64_at(e, cursor) {
            Some(v) => v,
            None => {
                return Err(BulkParseError::Truncated);
            },
        };
    }
    assert(!tail_truncated(e@));
    if had_error {
        return Ok(None);
    }
    let name = match name {
        Some(n) => n,
        None => {
            return Ok(None);
        },
    };
    let kind = entry_kind_from_obj_type(obj_type);
    if !matches!(kind, EntryKind::File) {
        logical_size = 0;
        allocated_bytes = 0;
    }
    Ok(Some(BulkEntry { name, kind, file_id, logical_size, allocated_bytes, dev_id }))
}


// ---- decoding a filled buffer -------------------------------------------------- //

/// The outcome of decoding `n` records from offset `off` of `buf`: `None`
/// when a record's name reference ends past the top of the address space
/// (no slice can be taken there), else the entries or the first error.
/// Records the kernel flagged, or without a name, are skipped.
pub open spec fn batch_from(buf: Seq<u8>, off: int, n: int) -> Option<Result<Seq<BulkEntryModel>, BulkParseError>>
    decreases n,
{
    if n <= 0 || off < 0 {
        Some(Ok(Seq::empty()))
    } else if off + 4 > buf.len() {
        Some(Err(BulkParseError::Truncated))
    } else {
        let len = le32(buf, off);
        if len < 24 || off + len > buf.len() {
            Some(Err(BulkParseError::MalformedLength))
        } else {
            let e = buf.subrange(off, off + len);
            if name_reference_wraps(e) {
                None
            } else {
                match parse_outcome(e) {
                    Err(x) => Some(Err(x)),
                    Ok(o) => match batch_from(buf, off + len, n - 1) {
                        None => None,
                        Some(Err(x)) => Some(Err(x)),
                        Some(Ok(rest)) => Some(
                            Ok(
                                match o {
                                    Some(m) => seq![m] + rest,
                                    None => rest,
                                },
                            ),
                        ),
                    },
                }
            }
        }
    }
}

/// `prefix` put before the entries of a successful outcome.
pub open spec fn after(prefix: Seq<BulkEntryModel>, o: Option<Result<Seq<BulkEntryModel>, BulkParseError>>) -> Option<
    Result<Seq<BulkEntryModel>, BulkParseError>,
> {
    match o {
        Some(Ok(rest)) => Some(Ok(prefix + rest)),
        _ => o,
    }
}

pub open spec fn batch_matches(
    r: Option<Result<Vec<BulkEntry>, BulkParseError>>,
    s: Option<Result<Seq<BulkEntryModel>, BulkParseError>>,
) -> bool {
    match (r, s) {
        (None, None) => true,
        (Some(Ok(v)), Some(Ok(m))) => v@.map_values(|b: BulkEntry| bulk_model(b)) == m,
        (Some(Err(a)), Some(Err(b))) => a == b,
        _ => false,
    }
}

/// Whether a record's name reference ends past the address space.
fn name_reference_wraps_exec(entry: &[u8]) -> (r: bool)
    ensures
        r == name_reference_wraps(entry@),
{
    if entry.len() < 32 {
        return false;
    }
    let rc = le_u32(entry, 4);
    if rc & ATTR_CMN_NAME == 0 {
        return false;
    }
    let data_offset = le_u32(entry, 24) as i32;
    let length = le_u32(entry, 28) as usize;
    match 24isize.checked_add(data_offset as isize) {
        None => false,
        Some(s) => {
            let start = s as usize;
            start > usize::MAX - length
        },
    }
}

/// Decodes the `count` records the kernel wrote into `buf`, as
/// [`batch_from`] says.
pub fn parse_bulk_buffer(buf: &[u8], count: u32) -> (r: Option<Result<Vec<BulkEntry>, BulkParseError>>)
    ensures
        batch_matches(r, batch_from(buf@, 0, count as int)),
{
    let ghost target = batch_from(buf@, 0, count as int);
    let mut out: Vec<BulkEntry> = Vec::new();
    let mut offset: usize = 0;
    let mut k: u32 = 0;
    assert(after(Seq::empty(), target) == target) by {
        match target {
            Some(Ok(rest)) => {
                assert(Seq::<BulkEntryModel>::empty() + rest =~= rest);
            },
            _ => {},
        }
    }
    while k < count
        invariant
            k <= count,
            offset <= buf@.len(),
            target == batch_from(buf@, 0, count as int),
            target == after(out@.map_values(|b: BulkEntry| bulk_model(b)), batch_from(buf@, offset as int, (count - k) as int)),
        decreases count - k,
    {
        let ghost prefix = out@.map_values(|b: BulkEntry| bulk_model(b));
        let entry_len = match read_u32_at(buf, offset as u64) {
            Some(v) => v,
            None => {
                return Some(Err(BulkParseError::Truncated));
            },
        };
        if entry_len < 24 || entry_len as usize > buf.len() - offset {
            return Some(Err(BulkParseError::MalformedLength));
        }
        let end = offset + entry_len as usize;
        let entry = crate::fs_record_body::slice_range(buf, offset, end);
        if name_reference_wraps_exec(entry) {
            return None;
        }
        let ghost rest = batch_from(buf@, end as int, (count - k - 1) as int);
        match parse_entry(entry) {
            Ok(Some(parsed)) => {
                let ghost m = bulk_model(parsed);
                out.push(parsed);
                proof {
                    assert(out@.map_values(|b: BulkEntry| bulk_model(b)) =~= prefix.push(m));
                    match rest {
                        Some(Ok(r2)) => {
                            assert(prefix + (seq![m] + r2) =~= prefix.push(m) + r2);
                        },
                        _ => {},
                    }
                }
            },
            Ok(None) => {},
            Err(e) => {
                return Some(Err(e));
            },
        }
        offset = end;
        k = k + 1;
    }
    proof {
        assert(out@.map_values(|b: BulkEntry| bulk_model(b)) + Seq::<BulkEntryModel>::empty() =~= out@.map_values(
            |b: BulkEntry| bulk_model(b),
        ));
    }
    Some(Ok(out))
}

} // verus!
