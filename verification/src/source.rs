//! The source check: which paths may be scanned, and how a caller-supplied
//! device or an attached disk image names the raw APFS container device.
//!
//! Checking that a path exists and attaching an image are the caller's
//! work; this module holds the rules that decide on what those steps
//! return.

use vstd::prelude::*;

use crate::text::{owned, starts_with_text};

verus! {

/// The `content-hint` that marks the APFS container among the entities an
/// image attach reports.
pub const APFS_CONTAINER_HINT: &'static str = "EF57347C-0000-11AA-AA11-00306543ECAC";

/// Where the bytes of a scan come from.
#[derive(Debug, Clone, PartialEq, Eq)]
pub struct SourceDescriptor {
    pub requested_path: String,
    pub raw_container_path: String,
    pub source_kind: String,
    pub allowlist_reason: String,
}

/// A source that passed the check, with the device to detach afterwards
/// when an image was attached for it.
#[derive(Debug, Clone)]
pub struct ValidatedSource {
    pub descriptor: SourceDescriptor,
    pub detach_device: Option<String>,
}

/// Why a source was refused.
#[derive(Debug, Clone, PartialEq, Eq)]
pub enum SourceRefusal {
    UnsupportedSource(String),
    MissingApfsContainer,
}

/// Device paths are those under `/dev/`.
pub fn is_device_path(path: &str) -> (r: bool)
    ensures
        r == "/dev/"@.is_prefix_of(path@),
{
    starts_with_text(path, "/dev/")
}

/// The raw (character) device for `device`: `/dev/rdiskN` stays as it is,
/// `/dev/diskN` becomes `/dev/rdiskN`, anything else has none.
pub open spec fn raw_device_path(device: Seq<char>) -> Option<Seq<char>> {
    if "/dev/rdisk"@.is_prefix_of(device) {
        Some(device)
    } else if "/dev/disk"@.is_prefix_of(device) {
        Some("/dev/rdisk"@ + device.subrange(9, device.len() as int))
    } else {
        None
    }
}

/// Normalizing a device path twice changes nothing more than normalizing
/// it once: the raw device of a raw device is itself.
pub proof fn lemma_raw_device_path_idempotent(device: Seq<char>)
    ensures
        raw_device_path(device) matches Some(p) ==> raw_device_path(p) == Some(p),
{
    reveal_strlit("/dev/rdisk");
    reveal_strlit("/dev/disk");
    if let Some(p) = raw_device_path(device) {
        if !"/dev/rdisk"@.is_prefix_of(device) {
            let rest = device.subrange(9, device.len() as int);
            assert(p == "/dev/rdisk"@ + rest);
            assert(p.subrange(0, 10) =~= "/dev/rdisk"@);
            assert("/dev/rdisk"@.is_prefix_of(p));
        }
    }
}

/// The raw device for `device`, or the reason it has none.
pub fn normalize_raw_device(device: &str) -> (r: Result<String, String>)
    ensures
        match raw_device_path(device@) {
            Some(p) => r matches Ok(s) && s@ == p,
            None => r matches Err(m) && m@ == "unsupported raw device path: "@ + device@,
        },
{
    proof {
        reveal_strlit("/dev/rdisk");
        reveal_strlit("/dev/disk");
    }
    if starts_with_text(device, "/dev/rdisk") {
        return Ok(owned(device));
    }
    if starts_with_text(device, "/dev/disk") {
        let n = device.unicode_len();
        let mut out = owned("/dev/rdisk");
        out.append(device.substring_char(9, n));
        return Ok(out);
    }
    let mut msg = owned("unsupported raw device path: ");
    msg.append(device);
    Err(msg)
}

/// The descriptor of a caller-supplied raw device path `requested_path`;
/// the caller still checks that the raw device exists.
pub fn raw_device_descriptor(requested_path: &str) -> (r: Result<SourceDescriptor, SourceRefusal>)
    ensures
        match raw_device_path(requested_path@) {
            Some(p) => r matches Ok(d) && {
                &&& d.requested_path@ == requested_path@
                &&& d.raw_container_path@ == p
                &&& d.source_kind@ == "raw_device"@
                &&& d.allowlist_reason@ == "caller-supplied raw APFS container device"@
            },
            None => r matches Err(SourceRefusal::UnsupportedSource(m)) && m@ == "unsupported raw device path: "@
                + requested_path@,
        },
{
    match normalize_raw_device(requested_path) {
        Ok(raw) => Ok(
            SourceDescriptor {
                requested_path: owned(requested_path),
                raw_container_path: raw,
                source_kind: owned("raw_device"),
                allowlist_reason: owned("caller-supplied raw APFS container device"),
            },
        ),
        Err(m) => Err(SourceRefusal::UnsupportedSource(m)),
    }
}

/// `c` in ASCII lowercase.
pub open spec fn ascii_lower(c: char) -> char {
    if 'A' <= c <= 'Z' {
        ((c as u32) + 32) as char
    } else {
        c
    }
}

fn lower_char(c: char) -> (r: char)
    ensures
        r == ascii_lower(c),
{
    if 'A' <= c && c <= 'Z' {
        ((c as u8) + 32) as char
    } else {
        c
    }
}

/// Only `.dmg` images (the extension compared without ASCII case) pass the
/// image check.
pub open spec fn dmg_extension(ext: Seq<char>) -> bool {
    &&& ext.len() == 3
    &&& ascii_lower(ext[0]) == 'd'
    &&& ascii_lower(ext[1]) == 'm'
    &&& ascii_lower(ext[2]) == 'g'
}

/// Whether a path whose extension is `extension` may be attached as an
/// image.
pub fn dmg_extension_accepted(extension: Option<&str>) -> (r: bool)
    ensures
        r == (extension matches Some(e) && dmg_extension(e@)),
{
    match extension {
        None => false,
        Some(e) => {
            if e.unicode_len() != 3 {
                return false;
            }
            lower_char(e.get_char(0)) == 'd' && lower_char(e.get_char(1)) == 'm' && lower_char(e.get_char(2))
                == 'g'
        },
    }
}

/// What an image attach reports of one system entity.
#[derive(Debug, Clone)]
pub struct AttachEntity {
    pub dev_entry: Option<String>,
    pub content_hint: Option<String>,
}

/// Index of the first entity from `i` on with a `dev-entry`.
pub open spec fn first_dev_entry(es: Seq<AttachEntity>, i: int) -> Option<int>
    decreases es.len() - i,
{
    if i < 0 || i >= es.len() {
        None
    } else if es[i].dev_entry is Some {
        Some(i)
    } else {
        first_dev_entry(es, i + 1)
    }
}

/// The entity marks the APFS container.
pub open spec fn is_container_entity(e: AttachEntity) -> bool {
    e.content_hint matches Some(h) && h@ == APFS_CONTAINER_HINT@
}

/// Index of the first entity from `i` on marked as the APFS container.
pub open spec fn first_container_entity(es: Seq<AttachEntity>, i: int) -> Option<int>
    decreases es.len() - i,
{
    if i < 0 || i >= es.len() {
        None
    } else if is_container_entity(es[i]) {
        Some(i)
    } else {
        first_container_entity(es, i + 1)
    }
}

fn find_dev_entry(entities: &[AttachEntity]) -> (r: Option<String>)
    ensures
        match first_dev_entry(entities@, 0) {
            Some(i) => 0 <= i < entities@.len() && r == entities@[i].dev_entry && r is Some,
            None => r is None,
        },
{
    let mut i: usize = 0;
    while i < entities.len()
        invariant
            i <= entities@.len(),
            first_dev_entry(entities@, 0) == first_dev_entry(entities@, i as int),
        decreases entities@.len() - i,
    {
        if let Some(d) = &entities[i].dev_entry {
            return Some(d.clone());
        }
        i = i + 1;
    }
    None
}

fn find_container_entity(entities: &[AttachEntity]) -> (r: Option<usize>)
    ensures
        match first_container_entity(entities@, 0) {
            Some(i) => 0 <= i < entities@.len() && r == Some(i as usize),
            None => r is None,
        },
{
    let mut i: usize = 0;
    while i < entities.len()
        invariant
            i <= entities@.len(),
            first_container_entity(entities@, 0) == first_container_entity(entities@, i as int),
        decreases entities@.len() - i,
    {
        let hit = match &entities[i].content_hint {
            Some(h) => crate::namespace::str_eq(h.as_str(), APFS_CONTAINER_HINT),
            None => false,
        };
        if hit {
            return Some(i);
        }
        i = i + 1;
    }
    None
}

/// The answer for an attached image `requested_path` whose attach
/// reported `entities`: the first entity with a `dev-entry` is the device
/// to detach later; the first entity marked as the APFS container must
/// carry a `dev-entry`, whose raw device is scanned.
pub open spec fn dmg_source(requested_path: Seq<char>, es: Seq<AttachEntity>) -> Result<(Seq<char>, Seq<char>), Option<Seq<char>>> {
    match first_dev_entry(es, 0) {
        None => Err(None),
        Some(d) => match first_container_entity(es, 0) {
            None => Err(None),
            Some(c) => match es[c].dev_entry {
                None => Err(None),
                Some(dev) => match raw_device_path(dev@) {
                    None => Err(Some("unsupported raw device path: "@ + dev@)),
                    Some(raw) => Ok((raw, es[d].dev_entry->0@)),
                },
            },
        },
    }
}

/// Builds the validated source of an attached image from what the attach
/// reported.
pub fn dmg_descriptor(requested_path: &str, entities: &[AttachEntity]) -> (r: Result<ValidatedSource, SourceRefusal>)
    ensures
        match dmg_source(requested_path@, entities@) {
            Ok((raw, detach)) => r matches Ok(v) && {
                &&& v.descriptor.requested_path@ == requested_path@
                &&& v.descriptor.raw_container_path@ == raw
                &&& v.descriptor.source_kind@ == "dmg_image"@
                &&& v.descriptor.allowlist_reason@ == "detached image-backed APFS container"@
                &&& v.detach_device matches Some(d) && d@ == detach
            },
            Err(None) => r matches Err(SourceRefusal::MissingApfsContainer),
            Err(Some(m)) => r matches Err(SourceRefusal::UnsupportedSource(t)) && t@ == m,
        },
{
    let detach_device = match find_dev_entry(entities) {
        Some(d) => d,
        None => {
            return Err(SourceRefusal::MissingApfsContainer);
        },
    };
    let index = match find_container_entity(entities) {
        Some(i) => i,
        None => {
            return Err(SourceRefusal::MissingApfsContainer);
        },
    };
    let container_device = match &entities[index].dev_entry {
        Some(d) => d,
        None => {
            return Err(SourceRefusal::MissingApfsContainer);
        },
    };
    let raw = match normalize_raw_device(container_device.as_str()) {
        Ok(raw) => raw,
        Err(m) => {
            return Err(SourceRefusal::UnsupportedSource(m));
        },
    };
    Ok(
        ValidatedSource {
            descriptor: SourceDescriptor {
                requested_path: owned(requested_path),
                raw_container_path: raw,
                source_kind: owned("dmg_image"),
                allowlist_reason: owned("detached image-backed APFS container"),
            },
            detach_device: Some(detach_device),
        },
    )
}

/// What to do with a requested source path, given whether it exists and
/// its extension: scan a device (once its raw device is found to exist),
/// attach it as an image, or refuse it.
#[derive(Debug, Clone, PartialEq, Eq)]
pub enum SourcePlan {
    Device(SourceDescriptor),
    AttachImage,
    Refused(SourceRefusal),
}

pub open spec fn missing_path_text(path: Seq<char>) -> Seq<char> {
    "source path does not exist: "@ + path
}

pub open spec fn allowlist_refusal_text() -> Seq<char> {
    "only detached APFS .dmg images or raw APFS container devices are in the current allowlist"@
}

pub open spec fn missing_device_text(raw: Seq<char>) -> Seq<char> {
    "raw device does not exist: "@ + raw
}

/// The plan for `requested_path`: device paths go to their raw device;
/// other paths must exist and carry a `.dmg` extension.
pub fn plan_source(requested_path: &str, requested_exists: bool, extension: Option<&str>) -> (r: SourcePlan)
    ensures
        "/dev/"@.is_prefix_of(requested_path@) ==> match raw_device_path(requested_path@) {
            Some(p) => r matches SourcePlan::Device(d) && {
                &&& d.requested_path@ == requested_path@
                &&& d.raw_container_path@ == p
                &&& d.source_kind@ == "raw_device"@
                &&& d.allowlist_reason@ == "caller-supplied raw APFS container device"@
            },
            None => r matches SourcePlan::Refused(SourceRefusal::UnsupportedSource(m)) && m@
                == "unsupported raw device path: "@ + requested_path@,
        },
        !"/dev/"@.is_prefix_of(requested_path@) && !requested_exists ==> (r matches SourcePlan::Refused(
            SourceRefusal::UnsupportedSource(m),
        ) && m@ == missing_path_text(requested_path@)),
        !"/dev/"@.is_prefix_of(requested_path@) && requested_exists && !(extension matches Some(e) && dmg_extension(
            e@,
        )) ==> (r matches SourcePlan::Refused(SourceRefusal::UnsupportedSource(m)) && m@ == allowlist_refusal_text()),
        !"/dev/"@.is_prefix_of(requested_path@) && requested_exists && (extension matches Some(e) && dmg_extension(
            e@,
        )) ==> r == SourcePlan::AttachImage,
{
    if is_device_path(requested_path) {
        return match raw_device_descriptor(requested_path) {
            Ok(d) => SourcePlan::Device(d),
            Err(refusal) => SourcePlan::Refused(refusal),
        };
    }
    if !requested_exists {
        let mut m = owned("source path does not exist: ");
        m.append(requested_path);
        return SourcePlan::Refused(SourceRefusal::UnsupportedSource(m));
    }
    if !dmg_extension_accepted(extension) {
        return SourcePlan::Refused(
            SourceRefusal::UnsupportedSource(
                owned("only detached APFS .dmg images or raw APFS container devices are in the current allowlist"),
            ),
        );
    }
    SourcePlan::AttachImage
}

/// The refusal of a device whose raw device does not exist.
pub fn missing_device(raw: &str) -> (r: SourceRefusal)
    ensures
        r matches SourceRefusal::UnsupportedSource(m) && m@ == missing_device_text(raw@),
{
    let mut m = owned("raw device does not exist: ");
    m.append(raw);
    SourceRefusal::UnsupportedSource(m)
}

} // verus!
