//! Generic APFS object header (`obj_phys_t`) validation.
//!
//! Every native parser step validates the object header before trusting the
//! body of an object: checksum, object kind, storage class, the encryption
//! and no-header hard stops, `o_oid == paddr` for physical objects, and the
//! scan-state XID bound. This module is that single check.

use vstd::prelude::*;

use crate::block_io::{checksum_matches, checksum_ok, le32, le64, le_u32, le_u64};
use crate::text::{decimal, hex_prefixed_width, msg_num, owned, push_decimal, push_hex_prefixed_width};
use crate::ScanError;

verus! {

/// Mask for the object kind bits of `o_type`.
pub const OBJECT_TYPE_MASK: u32 = 0x0000_ffff;
/// Mask for the storage-class flags of `o_type`.
pub const OBJECT_TYPE_FLAGS_MASK: u32 = 0xffff_0000;

pub const OBJ_VIRTUAL: u32 = 0x0000_0000;
pub const OBJ_EPHEMERAL: u32 = 0x8000_0000;
pub const OBJ_PHYSICAL: u32 = 0x4000_0000;
pub const OBJ_NOHEADER: u32 = 0x2000_0000;
pub const OBJ_ENCRYPTED: u32 = 0x1000_0000;

pub const OBJECT_TYPE_NX_SUPERBLOCK: u32 = 0x0001;
pub const OBJECT_TYPE_BTREE: u32 = 0x0002;
pub const OBJECT_TYPE_BTREE_NODE: u32 = 0x0003;
pub const OBJECT_TYPE_OMAP: u32 = 0x000b;
pub const OBJECT_TYPE_CHECKPOINT_MAP: u32 = 0x000c;
pub const OBJECT_TYPE_FS: u32 = 0x000d;
pub const OBJECT_TYPE_FSTREE: u32 = 0x000e;

/// `APSB` volume-superblock magic.
pub const APFS_MAGIC: u32 = 0x4253_5041;

/// Size of `obj_phys_t`.
pub const OBJ_HEADER_SIZE: usize = 32;

/// What the native parser knows about an APFS object before it reads the
/// body.
#[derive(Debug, Clone, Copy, PartialEq, Eq, Structural)]
pub struct ObjectHeader {
    pub block_address: u64,
    pub checksum: u64,
    pub oid: u64,
    pub xid: u64,
    pub object_type_raw: u32,
    pub object_type: u32,
    pub object_type_flags: u32,
    pub object_subtype: u32,
}

/// The header fields stored in the first 32 bytes of `block`.
pub open spec fn spec_header(block: Seq<u8>, block_address: u64) -> ObjectHeader {
    let raw = le32(block, 0x18) as u32;
    ObjectHeader {
        block_address,
        checksum: le64(block, 0x00) as u64,
        oid: le64(block, 0x08) as u64,
        xid: le64(block, 0x10) as u64,
        object_type_raw: raw,
        object_type: raw & OBJECT_TYPE_MASK,
        object_type_flags: raw & OBJECT_TYPE_FLAGS_MASK,
        object_subtype: le32(block, 0x1c) as u32,
    }
}

impl ObjectHeader {
    pub open spec fn physical(&self) -> bool {
        self.object_type_flags & OBJ_PHYSICAL != 0
    }

    pub open spec fn ephemeral(&self) -> bool {
        self.object_type_flags & OBJ_EPHEMERAL != 0
    }

    pub open spec fn encrypted(&self) -> bool {
        self.object_type_flags & OBJ_ENCRYPTED != 0
    }

    pub open spec fn noheader(&self) -> bool {
        self.object_type_flags & OBJ_NOHEADER != 0
    }

    /// Decodes the header of `block`, found at `block_address`.
    pub fn from_block(block: &[u8], block_address: u64) -> (h: Self)
        requires
            block@.len() >= OBJ_HEADER_SIZE,
        ensures
            h == spec_header(block@, block_address),
    {
        let object_type_raw = le_u32(block, 0x18);
        ObjectHeader {
            block_address,
            checksum: le_u64(block, 0x00),
            oid: le_u64(block, 0x08),
            xid: le_u64(block, 0x10),
            object_type_raw,
            object_type: object_type_raw & OBJECT_TYPE_MASK,
            object_type_flags: object_type_raw & OBJECT_TYPE_FLAGS_MASK,
            object_subtype: le_u32(block, 0x1c),
        }
    }

    pub fn is_physical(&self) -> (b: bool)
        ensures
            b == self.physical(),
    {
        self.object_type_flags & OBJ_PHYSICAL != 0
    }

    pub fn is_ephemeral(&self) -> (b: bool)
        ensures
            b == self.ephemeral(),
    {
        self.object_type_flags & OBJ_EPHEMERAL != 0
    }

    pub fn is_encrypted(&self) -> (b: bool)
        ensures
            b == self.encrypted(),
    {
        self.object_type_flags & OBJ_ENCRYPTED != 0
    }

    pub fn is_noheader(&self) -> (b: bool)
        ensures
            b == self.noheader(),
    {
        self.object_type_flags & OBJ_NOHEADER != 0
    }
}

/// The storage class a caller expects an object to carry.
#[derive(Debug, Clone, Copy, PartialEq, Eq, Structural)]
pub enum ExpectedStorage {
    Virtual,
    Ephemeral,
    Physical,
    Any,
}

/// What a caller requires of an object header.
#[derive(Debug, Clone, Copy, PartialEq, Eq, Structural)]
pub struct ObjectExpectation {
    pub object_type: u32,
    pub storage: ExpectedStorage,
    pub max_xid: Option<u64>,
    pub require_oid_eq_paddr: bool,
}

impl ObjectExpectation {
    /// A physical object: `o_oid` must equal the block address.
    pub fn physical(object_type: u32) -> (e: Self)
        ensures
            e == (ObjectExpectation {
                object_type,
                storage: ExpectedStorage::Physical,
                max_xid: None,
                require_oid_eq_paddr: true,
            }),
    {
        ObjectExpectation {
            object_type,
            storage: ExpectedStorage::Physical,
            max_xid: None,
            require_oid_eq_paddr: true,
        }
    }

    /// A virtual object, optionally bounded by a scan-state XID.
    pub fn virtual_object(object_type: u32, max_xid: Option<u64>) -> (e: Self)
        ensures
            e == (ObjectExpectation {
                object_type,
                storage: ExpectedStorage::Virtual,
                max_xid,
                require_oid_eq_paddr: false,
            }),
    {
        ObjectExpectation {
            object_type,
            storage: ExpectedStorage::Virtual,
            max_xid,
            require_oid_eq_paddr: false,
        }
    }

    /// An ephemeral object.
    pub fn ephemeral_object(object_type: u32) -> (e: Self)
        ensures
            e == (ObjectExpectation {
                object_type,
                storage: ExpectedStorage::Ephemeral,
                max_xid: None,
                require_oid_eq_paddr: false,
            }),
    {
        ObjectExpectation {
            object_type,
            storage: ExpectedStorage::Ephemeral,
            max_xid: None,
            require_oid_eq_paddr: false,
        }
    }

    /// An object of any storage class.
    pub fn any_storage(object_type: u32) -> (e: Self)
        ensures
            e == (ObjectExpectation {
                object_type,
                storage: ExpectedStorage::Any,
                max_xid: None,
                require_oid_eq_paddr: false,
            }),
    {
        ObjectExpectation {
            object_type,
            storage: ExpectedStorage::Any,
            max_xid: None,
            require_oid_eq_paddr: false,
        }
    }
}

/// Why an object header was refused, in the order they are checked.
pub enum ObjectRejection {
    ChecksumMismatch,
    WrongType,
    WrongStorage,
    Encrypted,
    NoHeader,
    OidNotPaddr,
    NewerThanScan,
}

/// Whether the header's storage flags agree with the expected class.
pub open spec fn storage_agrees(h: ObjectHeader, storage: ExpectedStorage) -> bool {
    match storage {
        ExpectedStorage::Virtual => !h.physical() && !h.ephemeral(),
        ExpectedStorage::Physical => h.physical(),
        ExpectedStorage::Ephemeral => h.ephemeral(),
        ExpectedStorage::Any => true,
    }
}

/// The first check an object block fails, or `None` if it passes them all.
pub open spec fn object_rejection(
    block: Seq<u8>,
    block_address: u64,
    e: ObjectExpectation,
) -> Option<ObjectRejection> {
    let h = spec_header(block, block_address);
    if !checksum_ok(block) {
        Some(ObjectRejection::ChecksumMismatch)
    } else if h.object_type != e.object_type {
        Some(ObjectRejection::WrongType)
    } else if !storage_agrees(h, e.storage) {
        Some(ObjectRejection::WrongStorage)
    } else if h.encrypted() {
        Some(ObjectRejection::Encrypted)
    } else if h.noheader() {
        Some(ObjectRejection::NoHeader)
    } else if e.require_oid_eq_paddr && h.oid != block_address {
        Some(ObjectRejection::OidNotPaddr)
    } else if e.max_xid matches Some(m) && h.xid > m {
        Some(ObjectRejection::NewerThanScan)
    } else {
        None
    }
}

/// What the refusal says of the expected storage class.
pub open spec fn expected_storage_text(storage: ExpectedStorage) -> Seq<char> {
    match storage {
        ExpectedStorage::Virtual => ", expected virtual"@,
        ExpectedStorage::Physical => ", expected physical"@,
        ExpectedStorage::Ephemeral => ", expected ephemeral"@,
        ExpectedStorage::Any => Seq::empty(),
    }
}

/// The reason given when the block is refused: names the block, the
/// failed check and the values it compared.
pub open spec fn rejection_reason(block: Seq<u8>, block_address: u64, e: ObjectExpectation) -> Seq<char> {
    let h = spec_header(block, block_address);
    let at = decimal(block_address as nat);
    match object_rejection(block, block_address, e) {
        Some(ObjectRejection::ChecksumMismatch) => "checksum mismatch at block "@ + at,
        Some(ObjectRejection::WrongType) => "block "@ + at + " has object type "@ + hex_prefixed_width(
            h.object_type as nat,
            6,
        ) + ", expected "@ + hex_prefixed_width(e.object_type as nat, 6),
        Some(ObjectRejection::WrongStorage) => "block "@ + at + " has storage flags "@ + hex_prefixed_width(
            h.object_type_flags as nat,
            10,
        ) + expected_storage_text(e.storage),
        Some(ObjectRejection::Encrypted) => "block "@ + at + " has OBJ_ENCRYPTED set; encrypted objects are unsupported"@,
        Some(ObjectRejection::NoHeader) => "block "@ + at + " has OBJ_NOHEADER set; zero-header objects are unsupported"@,
        Some(ObjectRejection::OidNotPaddr) => "physical object at block "@ + at + " has o_oid="@ + decimal(h.oid as nat)
            + " (expected o_oid==paddr)"@,
        Some(ObjectRejection::NewerThanScan) => "object at block "@ + at + " has o_xid="@ + decimal(h.xid as nat)
            + " newer than scan state "@ + decimal(e.max_xid->Some_0 as nat),
        None => Seq::empty(),
    }
}

/// Parses and validates an `obj_phys_t` header against `expectation`.
///
/// Succeeds with the decoded header exactly when the block passes every
/// check of [`object_rejection`]; otherwise fails with `InvalidObject`.
pub fn validate_object_block(
    block: &[u8],
    block_address: u64,
    expectation: ObjectExpectation,
) -> (r: Result<ObjectHeader, ScanError>)
    requires
        block@.len() >= OBJ_HEADER_SIZE,
    ensures
        object_rejection(block@, block_address, expectation) is None ==> r == Ok::<
            ObjectHeader,
            ScanError,
        >(spec_header(block@, block_address)),
        object_rejection(block@, block_address, expectation) is Some ==> (r matches Err(
            ScanError::InvalidObject(m),
        ) && m@ == rejection_reason(block@, block_address, expectation)),
{
    if !checksum_matches(block) {
        let mut m = owned("checksum mismatch at block ");
        push_decimal(&mut m, block_address);
        return Err(ScanError::InvalidObject(m));
    }
    let header = ObjectHeader::from_block(block, block_address);

    if header.object_type != expectation.object_type {
        let mut m = msg_num("block ", block_address, " has object type ");
        push_hex_prefixed_width(&mut m, header.object_type as u64, 6);
        m.append(", expected ");
        push_hex_prefixed_width(&mut m, expectation.object_type as u64, 6);
        return Err(ScanError::InvalidObject(m));
    }

    let storage_ok = match expectation.storage {
        ExpectedStorage::Virtual => !header.is_physical() && !header.is_ephemeral(),
        ExpectedStorage::Physical => header.is_physical(),
        ExpectedStorage::Ephemeral => header.is_ephemeral(),
        ExpectedStorage::Any => true,
    };
    if !storage_ok {
        let mut m = msg_num("block ", block_address, " has storage flags ");
        push_hex_prefixed_width(&mut m, header.object_type_flags as u64, 10);
        match expectation.storage {
            ExpectedStorage::Virtual => m.append(", expected virtual"),
            ExpectedStorage::Physical => m.append(", expected physical"),
            ExpectedStorage::Ephemeral => m.append(", expected ephemeral"),
            ExpectedStorage::Any => {},
        }
        return Err(ScanError::InvalidObject(m));
    }

    if header.is_encrypted() {
        return Err(ScanError::InvalidObject(msg_num(
            "block ",
            block_address,
            " has OBJ_ENCRYPTED set; encrypted objects are unsupported",
        )));
    }

    if header.is_noheader() {
        return Err(ScanError::InvalidObject(msg_num(
            "block ",
            block_address,
            " has OBJ_NOHEADER set; zero-header objects are unsupported",
        )));
    }

    if expectation.require_oid_eq_paddr && header.oid != block_address {
        let m = crate::text::msg_num2(
            "physical object at block ",
            block_address,
            " has o_oid=",
            header.oid,
            " (expected o_oid==paddr)",
        );
        return Err(ScanError::InvalidObject(m));
    }

    if let Some(max_xid) = expectation.max_xid {
        if header.xid > max_xid {
            let mut m = crate::text::msg_num2(
                "object at block ",
                block_address,
                " has o_xid=",
                header.xid,
                " newer than scan state ",
            );
            push_decimal(&mut m, max_xid);
            return Err(ScanError::InvalidObject(m));
        }
    }

    Ok(header)
}

/// Names of the storage-class and hard-stop flags a header carries:
/// `physical`, `ephemeral` or `virtual` (at most one), then `encrypted`
/// and `noheader` when set.
pub open spec fn flags_summary_of(h: ObjectHeader) -> Seq<Seq<char>> {
    let storage: Seq<Seq<char>> = if h.physical() {
        seq!["physical"@]
    } else if h.ephemeral() {
        seq!["ephemeral"@]
    } else if h.object_type_flags == OBJ_VIRTUAL {
        seq!["virtual"@]
    } else {
        Seq::empty()
    };
    let enc: Seq<Seq<char>> = if h.encrypted() {
        seq!["encrypted"@]
    } else {
        Seq::empty()
    };
    let nh: Seq<Seq<char>> = if h.noheader() {
        seq!["noheader"@]
    } else {
        Seq::empty()
    };
    storage + enc + nh
}

/// The views of a list of static names.
pub open spec fn name_views(names: Seq<&'static str>) -> Seq<Seq<char>> {
    names.map_values(|n: &'static str| n@)
}

/// Storage-class and hard-stop flag names for a header.
pub fn flags_summary(header: &ObjectHeader) -> (r: Vec<&'static str>)
    ensures
        name_views(r@) == flags_summary_of(*header),
{
    let mut summary: Vec<&'static str> = Vec::new();
    if header.is_physical() {
        summary.push("physical");
    } else if header.is_ephemeral() {
        summary.push("ephemeral");
    } else if header.object_type_flags == OBJ_VIRTUAL {
        summary.push("virtual");
    }
    let ghost first = summary@;
    if header.is_encrypted() {
        summary.push("encrypted");
    }
    let ghost second = summary@;
    if header.is_noheader() {
        summary.push("noheader");
    }
    assert(name_views(summary@) =~= flags_summary_of(*header));
    summary
}

} // verus!
