//! The native dump of the selected checkpoint: container superblock,
//! checkpoint-map ring, container object map, every volume superblock it
//! names, and the FS-tree record dump of each supported volume.

use vstd::prelude::*;

use crate::block_io::{le32, le64, read_block};
use crate::checkpoint::{
    block_at, block_size_allowed, candidates_in, descriptor_base_raw, descriptor_count, is_highest_index, read_failure,
    scan_failure, scan_reader, skipped_in, skipped_view, NxsbCandidate, ScanFailure, ScanReport, ScanState,
    SkippedDescriptor, failure_of,
};
use crate::container::{
    container_matches, container_refused, decode_container_summary, empty_area_text, empty_ring_walk, no_trailing_text,
    ring_step, ring_summary_matches, ring_too_long_text, ring_walk, volume_oids_upto, walk_checkpoint_maps, CheckpointMapSummary, ContainerSummary, RingWalk,
    NX_MAX_FILE_SYSTEMS,
};
use crate::fs_record_body::texts;
use crate::namespace::{build_namespace, namespace_ok, DirectoryAggregate, NamespaceEntry, WalkSkip};
use crate::source::SourceDescriptor;
use crate::fs_records::{dump_fs_records, dump_matches, empty_walk, fs_walk, FsRecordDump, FsWalk};
use crate::object::{
    object_rejection, spec_header, validate_object_block, ExpectedStorage, ObjectExpectation, ObjectHeader,
    OBJECT_TYPE_BTREE, OBJECT_TYPE_FSTREE,
};
use crate::omap::{spec_open, summary_matches, visit_budget, OmapResolver, OmapSummary, OmapValue, Tally};
use crate::text::{decimal, hex_prefixed, msg_num, msg_num2, msg_pair, owned, push_hex_prefixed};
use crate::volume::{unsupported_reason, volume_matches, volume_refused, VolumeSummary, VolumeSupportStatus};
use crate::ScanError;

verus! {

/// The object map answers of one volume, and what the native dump made of
/// it.
#[derive(Debug, Clone)]
pub struct VolumeReport {
    pub fs_oid_index: u32,
    pub volume_oid: u64,
    pub container_omap_lookup: OmapValue,
    pub summary: VolumeSummary,
    pub volume_omap: Option<OmapSummary>,
    pub root_tree_lookup: Option<OmapValue>,
    pub fs_record_dump: Option<FsRecordDump>,
    pub status: String,
    pub status_reason: Option<String>,
}

// ---- the FS-tree root -------------------------------------------------------- //

/// The FS-tree root is reached through the volume object map, so it carries
/// a virtual `OBJECT_TYPE_BTREE` header no newer than the scan.
pub open spec fn root_expectation(max_xid: u64) -> ObjectExpectation {
    ObjectExpectation {
        object_type: OBJECT_TYPE_BTREE,
        storage: ExpectedStorage::Virtual,
        max_xid: Some(max_xid),
        require_oid_eq_paddr: false,
    }
}

/// The block the object map points the root at reads, validates as a
/// virtual B-tree root, carries the object id the map was asked for, and
/// has the `fstree` subtype.
pub open spec fn fs_root_ok(image: Seq<u8>, bs: usize, root: OmapValue, max_xid: u64) -> bool {
    let b = block_at(image, root.paddr, bs);
    let h = spec_header(b, root.paddr);
    &&& read_failure(image.len() as int, root.paddr, bs) is None
    &&& object_rejection(b, root.paddr, root_expectation(max_xid)) is None
    &&& h.oid == root.oid
    &&& h.object_subtype == OBJECT_TYPE_FSTREE
}

/// Checks the FS-tree root block that the volume object map resolved.
pub fn validate_fs_root_header(image: &[u8], block_size: usize, root_value: &OmapValue, max_xid: u64) -> (r: Result<
    (),
    ScanError,
>)
    requires
        block_size >= 32,
    ensures
        r is Ok <==> fs_root_ok(image@, block_size, *root_value, max_xid),
{
    let block = read_block(image, root_value.paddr, block_size)?;
    let header = validate_object_block(
        block.as_slice(),
        root_value.paddr,
        ObjectExpectation {
            object_type: OBJECT_TYPE_BTREE,
            storage: ExpectedStorage::Virtual,
            max_xid: Some(max_xid),
            require_oid_eq_paddr: false,
        },
    )?;
    if header.oid != root_value.oid {
        let mut msg = msg_num("FS-tree root at ", root_value.paddr, " carries virtual oid ");
        push_hex_prefixed(&mut msg, header.oid);
        msg.append(", expected ");
        push_hex_prefixed(&mut msg, root_value.oid);
        msg.append(" from volume OMAP");
        return Err(ScanError::InvalidObject(msg));
    }
    if header.object_subtype != OBJECT_TYPE_FSTREE {
        let mut msg = msg_num("FS-tree root at ", root_value.paddr, " has subtype ");
        push_hex_prefixed(&mut msg, header.object_subtype as u64);
        msg.append(", expected fstree (");
        push_hex_prefixed(&mut msg, OBJECT_TYPE_FSTREE as u64);
        msg.append(")");
        return Err(ScanError::InvalidObject(msg));
    }
    Ok(())
}

// ---- a volume that was not decoded -------------------------------------------- //

/// `v` is the placeholder summary of a volume that could not be decoded:
/// every field zero or empty but the object id, and support status
/// `Unsupported("not decoded")`.
pub open spec fn is_placeholder_summary(v: VolumeSummary, volume_oid: u64) -> bool {
    &&& v.block_address == 0
    &&& v.virtual_oid == volume_oid
    &&& v.xid == 0
    &&& v.fs_index == 0
    &&& v.features_raw == 0
    &&& v.readonly_compatible_features_raw == 0
    &&& v.incompatible_features_raw == 0
    &&& v.fs_flags_raw == 0
    &&& v.incompatible_features@.len() == 0
    &&& v.fs_flags@.len() == 0
    &&& v.unsupported_incompatible_features == 0
    &&& v.volume_name@.len() == 0
    &&& v.volume_uuid_hex@.len() == 0
    &&& v.role_raw == 0
    &&& v.role_names@.len() == 0
    &&& v.root_tree_type_raw == 0
    &&& v.extentref_tree_type_raw == 0
    &&& v.snap_meta_tree_type_raw == 0
    &&& v.omap_oid == 0
    &&& v.root_tree_virtual_oid == 0
    &&& v.extentref_tree_oid == 0
    &&& v.snap_meta_tree_oid == 0
    &&& v.num_files == 0
    &&& v.num_directories == 0
    &&& v.num_symlinks == 0
    &&& v.num_other_fsobjects == 0
    &&& v.num_snapshots == 0
    &&& v.object_header == ObjectHeader {
        block_address: 0,
        checksum: 0,
        oid: volume_oid,
        xid: 0,
        object_type_raw: 0,
        object_type: 0,
        object_type_flags: 0,
        object_subtype: 0,
    }
    &&& v.object_storage_summary@.len() == 0
    &&& !v.case_insensitive
    &&& !v.normalization_insensitive
    &&& !v.encrypted_runtime
    &&& v.support_status matches VolumeSupportStatus::Unsupported(t) && t@ == "not decoded"@
}

/// The placeholder summary for volume `volume_oid`.
pub fn empty_volume_summary(volume_oid: u64) -> (v: VolumeSummary)
    ensures
        is_placeholder_summary(v, volume_oid),
{
    VolumeSummary {
        block_address: 0,
        virtual_oid: volume_oid,
        xid: 0,
        fs_index: 0,
        features_raw: 0,
        readonly_compatible_features_raw: 0,
        incompatible_features_raw: 0,
        fs_flags_raw: 0,
        incompatible_features: Vec::new(),
        fs_flags: Vec::new(),
        unsupported_incompatible_features: 0,
        volume_name: String::new(),
        volume_uuid_hex: String::new(),
        role_raw: 0,
        role_names: Vec::new(),
        root_tree_type_raw: 0,
        extentref_tree_type_raw: 0,
        snap_meta_tree_type_raw: 0,
        omap_oid: 0,
        root_tree_virtual_oid: 0,
        extentref_tree_oid: 0,
        snap_meta_tree_oid: 0,
        num_files: 0,
        num_directories: 0,
        num_symlinks: 0,
        num_other_fsobjects: 0,
        num_snapshots: 0,
        object_header: ObjectHeader {
            block_address: 0,
            checksum: 0,
            oid: volume_oid,
            xid: 0,
            object_type_raw: 0,
            object_type: 0,
            object_type_flags: 0,
            object_subtype: 0,
        },
        object_storage_summary: Vec::new(),
        case_insensitive: false,
        normalization_insensitive: false,
        encrypted_runtime: false,
        support_status: VolumeSupportStatus::Unsupported(owned("not decoded")),
    }
}

// ---- one volume ------------------------------------------------------------- //

/// How one volume of the container fares in the native dump.
pub enum VolumeFate {
    /// A read, object-map or FS-tree failure stops the whole dump.
    Fails,
    /// The container object map has no mapping for the volume.
    Missing,
    /// The volume superblock was refused.
    DecodeFailed { value: OmapValue },
    /// The volume decodes but must not be walked, for `reason`.
    Unsupported { value: OmapValue, reason: Seq<char> },
    /// The volume was walked: its object map, the tally of that map, the
    /// root lookup, and the FS-tree walk when the root validated.
    Supported { value: OmapValue, omap: OmapResolver, tally: Tally, root: Option<OmapValue>, walk: Option<FsWalk> },
}

/// Fields of the volume superblock at `paddr`.
pub open spec fn vol_block(image: Seq<u8>, bs: usize, paddr: u64) -> Seq<u8> {
    block_at(image, paddr, bs)
}

/// How a volume whose superblock at `v.paddr` decoded and is supported
/// fares: its object map opens and is tallied, the root tree id is looked
/// up, and a root that validates is walked.
#[verifier::opaque]
pub open spec fn supported_fate(image: Seq<u8>, bs: usize, xid: u64, v: OmapValue, b: Seq<u8>) -> VolumeFate {
    match spec_open(image, bs, le64(b, 0x80) as u64) {
        Err(_) => VolumeFate::Fails,
        Ok(vr) => match vr.summary_tally(image, bs, xid, 8) {
            Err(_) => VolumeFate::Fails,
            Ok(t) => match vr.lookup_spec(image, bs, le64(b, 0x88) as u64, xid) {
                Some(Ok(None)) => VolumeFate::Supported { value: v, omap: vr, tally: t, root: None, walk: None },
                Some(Ok(Some(rv))) => if !fs_root_ok(image, bs, rv, xid) {
                    VolumeFate::Supported { value: v, omap: vr, tally: t, root: Some(rv), walk: None }
                } else {
                    match fs_walk(image, bs, vr, rv.paddr, true, empty_walk(), xid, visit_budget(image.len() as int, bs)) {
                        Ok(w) => VolumeFate::Supported { value: v, omap: vr, tally: t, root: Some(rv), walk: Some(w) },
                        Err(_) => VolumeFate::Fails,
                    }
                },
                _ => VolumeFate::Fails,
            },
        },
    }
}

/// How volume `oid` fares once the container object map mapped it to `v`.
#[verifier::opaque]
pub open spec fn mapped_fate(image: Seq<u8>, bs: usize, xid: u64, oid: u64, v: OmapValue) -> VolumeFate {
    if read_failure(image.len() as int, v.paddr, bs) is Some {
        VolumeFate::Fails
    } else {
        let b = vol_block(image, bs, v.paddr);
        if volume_refused(b, v.paddr, oid, xid) {
            VolumeFate::DecodeFailed { value: v }
        } else {
            match unsupported_reason(le64(b, 0x108) as u64, le64(b, 0x38) as u64) {
                Some(t) => VolumeFate::Unsupported { value: v, reason: t },
                None => supported_fate(image, bs, xid, v, b),
            }
        }
    }
}

/// How volume `oid` fares, given the container object map `cres` at `xid`.
#[verifier::opaque]
pub open spec fn volume_fate(image: Seq<u8>, bs: usize, cres: OmapResolver, xid: u64, oid: u64) -> VolumeFate {
    match cres.lookup_spec(image, bs, oid, xid) {
        Some(Ok(None)) => VolumeFate::Missing,
        Some(Ok(Some(v))) => mapped_fate(image, bs, xid, oid, v),
        _ => VolumeFate::Fails,
    }
}

/// The root of a supported volume was found but did not validate.
pub open spec fn root_failed(f: VolumeFate) -> bool {
    f matches VolumeFate::Supported { root, walk, .. } && root is Some && walk is None
}

/// The beginning of the validation gap recorded for a volume whose FS-tree
/// root did not validate; the error text follows it.
pub open spec fn root_gap_prefix(oid: u64) -> Seq<char> {
    "FS-tree root for volume oid "@ + crate::text::decimal(oid as nat) + " did not validate: "@
}

/// `rep` reports volume `index` with object id `oid`, whose fate is `f`.
#[verifier::opaque]
pub open spec fn volume_report_ok(
    rep: VolumeReport,
    f: VolumeFate,
    image: Seq<u8>,
    bs: usize,
    index: u32,
    oid: u64,
    xid: u64,
) -> bool {
    &&& rep.fs_oid_index == index
    &&& rep.volume_oid == oid
    &&& match f {
        VolumeFate::Fails => false,
        VolumeFate::Missing => {
            &&& rep.container_omap_lookup == OmapValue { oid, xid: 0, paddr: 0, flags: 0, size: 0 }
            &&& is_placeholder_summary(rep.summary, oid)
            &&& rep.volume_omap is None
            &&& rep.root_tree_lookup is None
            &&& rep.fs_record_dump is None
            &&& rep.status@ == "missing_in_container_omap"@
            &&& rep.status_reason matches Some(t) && t@
                == "container OMAP did not return a mapping at the selected scan XID"@
        },
        VolumeFate::DecodeFailed { value } => {
            &&& rep.container_omap_lookup == value
            &&& is_placeholder_summary(rep.summary, oid)
            &&& rep.volume_omap is None
            &&& rep.root_tree_lookup is None
            &&& rep.fs_record_dump is None
            &&& rep.status@ == "volume_decode_failed"@
            &&& rep.status_reason matches Some(t) && "APFS object validation failed: "@.is_prefix_of(t@)
        },
        VolumeFate::Unsupported { value, reason } => {
            &&& rep.container_omap_lookup == value
            &&& volume_matches(rep.summary, vol_block(image, bs, value.paddr), value.paddr)
            &&& rep.volume_omap is None
            &&& rep.root_tree_lookup is None
            &&& rep.fs_record_dump is None
            &&& rep.status@ == "volume_unsupported"@
            &&& rep.status_reason matches Some(t) && t@ == reason
        },
        VolumeFate::Supported { value, omap, tally, root, walk } => {
            &&& rep.container_omap_lookup == value
            &&& volume_matches(rep.summary, vol_block(image, bs, value.paddr), value.paddr)
            &&& rep.volume_omap matches Some(s) && summary_matches(s, omap.phys, tally)
            &&& rep.root_tree_lookup == root
            &&& match walk {
                Some(w) => rep.fs_record_dump matches Some(d) && dump_matches(d, w, index, oid, root->0.paddr, xid),
                None => rep.fs_record_dump is None,
            }
            &&& rep.status@ == "supported"@
            &&& rep.status_reason is None
        },
    }
}

/// What the report of a volume with fate `f` shows of it.
pub open spec fn report_flags_ok(rep: VolumeReport, f: VolumeFate) -> bool {
    &&& rep.volume_omap is Some <==> f is Supported
    &&& rep.fs_record_dump is Some <==> (f matches VolumeFate::Supported { walk, .. } && walk is Some)
}

/// Decodes and, when supported, dumps volume `index` of the container.
/// Returns its report and, when its FS-tree root did not validate, the
/// validation gap to record.
pub fn volume_report(
    image: &[u8],
    block_size: usize,
    cres: &OmapResolver,
    xid: u64,
    index: u32,
    volume_oid: u64,
) -> (r: Result<(VolumeReport, Option<String>), ScanError>)
    requires
        block_size >= 4096,
    ensures
        r is Err <==> volume_fate(image@, block_size, *cres, xid, volume_oid) is Fails,
        r matches Ok((rep, gap)) ==> {
            let f = volume_fate(image@, block_size, *cres, xid, volume_oid);
            &&& volume_report_ok(rep, f, image@, block_size, index, volume_oid, xid)
            &&& report_flags_ok(rep, f)
            &&& root_failed(f) <==> gap is Some
            &&& gap matches Some(g) ==> root_gap_prefix(volume_oid).is_prefix_of(g@)
        },
{
    reveal(volume_fate);
    let lookup = cres.lookup(image, block_size, volume_oid, xid)?;
    match lookup {
        None => {
            let rep = VolumeReport {
                fs_oid_index: index,
                volume_oid,
                container_omap_lookup: OmapValue { oid: volume_oid, xid: 0, paddr: 0, flags: 0, size: 0 },
                summary: empty_volume_summary(volume_oid),
                volume_omap: None,
                root_tree_lookup: None,
                fs_record_dump: None,
                status: owned("missing_in_container_omap"),
                status_reason: Some(owned("container OMAP did not return a mapping at the selected scan XID")),
            };
            proof {
                reveal(volume_report_ok);
            }
            Ok((rep, None))
        },
        Some(v) => mapped_volume_report(image, block_size, xid, index, volume_oid, v),
    }
}

/// [`volume_report`] once the container object map mapped the volume to
/// `volume_value`.
#[verifier::rlimit(30)]
fn mapped_volume_report(
    image: &[u8],
    block_size: usize,
    xid: u64,
    index: u32,
    volume_oid: u64,
    volume_value: OmapValue,
) -> (r: Result<(VolumeReport, Option<String>), ScanError>)
    requires
        block_size >= 4096,
    ensures
        r is Err <==> mapped_fate(image@, block_size, xid, volume_oid, volume_value) is Fails,
        r matches Ok((rep, gap)) ==> {
            let f = mapped_fate(image@, block_size, xid, volume_oid, volume_value);
            &&& volume_report_ok(rep, f, image@, block_size, index, volume_oid, xid)
            &&& report_flags_ok(rep, f)
            &&& root_failed(f) <==> gap is Some
            &&& gap matches Some(g) ==> root_gap_prefix(volume_oid).is_prefix_of(g@)
        },
{
    reveal(mapped_fate);
    reveal(volume_report_ok);
    let volume_block = read_block(image, volume_value.paddr, block_size)?;
    assert(volume_block@ == vol_block(image@, block_size, volume_value.paddr));
    let summary = match crate::volume::decode_volume_summary(
        volume_block.as_slice(),
        volume_value.paddr,
        volume_oid,
        xid,
    ) {
        Ok(s) => s,
        Err(err) => {
            let reason = err.message();
            let rep = VolumeReport {
                fs_oid_index: index,
                volume_oid,
                container_omap_lookup: volume_value,
                summary: empty_volume_summary(volume_oid),
                volume_omap: None,
                root_tree_lookup: None,
                fs_record_dump: None,
                status: owned("volume_decode_failed"),
                status_reason: Some(reason),
            };
            assert("APFS object validation failed: "@.is_prefix_of(reason@)) by {
                let m = err->InvalidObject_0;
                assert(reason@.subrange(0, "APFS object validation failed: "@.len() as int) =~= "APFS object validation failed: "@);
            }
            return Ok((rep, None));
        },
    };
    let unsupported = match &summary.support_status {
        VolumeSupportStatus::Unsupported(reason) => Some(reason.clone()),
        VolumeSupportStatus::Supported => None,
    };
    if let Some(reason) = unsupported {
        let rep = VolumeReport {
            fs_oid_index: index,
            volume_oid,
            container_omap_lookup: volume_value,
            summary,
            volume_omap: None,
            root_tree_lookup: None,
            fs_record_dump: None,
            status: owned("volume_unsupported"),
            status_reason: Some(reason),
        };
        return Ok((rep, None));
    }
    walk_supported_volume(image, block_size, xid, index, volume_oid, volume_value, summary, Ghost(volume_block@))
}

/// The supported-volume part of [`volume_report`]: opens and tallies the
/// volume object map, looks the root tree up, validates its root and dumps
/// its records.
fn walk_supported_volume(
    image: &[u8],
    block_size: usize,
    xid: u64,
    index: u32,
    volume_oid: u64,
    volume_value: OmapValue,
    summary: VolumeSummary,
    Ghost(b): Ghost<Seq<u8>>,
) -> (r: Result<(VolumeReport, Option<String>), ScanError>)
    requires
        block_size >= 4096,
        b.len() >= 0x110,
        volume_matches(summary, b, volume_value.paddr),
    ensures
        r is Err <==> supported_fate(image@, block_size, xid, volume_value, b) is Fails,
        r matches Ok((rep, gap)) ==> {
            let f = supported_fate(image@, block_size, xid, volume_value, b);
            &&& rep.fs_oid_index == index
            &&& rep.volume_oid == volume_oid
            &&& rep.container_omap_lookup == volume_value
            &&& rep.summary == summary
            &&& report_flags_ok(rep, f)
            &&& f matches VolumeFate::Supported { value, omap, tally, root, walk } && value == volume_value && {
                &&& rep.volume_omap matches Some(s) && summary_matches(s, omap.phys, tally)
                &&& rep.root_tree_lookup == root
                &&& match walk {
                    Some(w) => rep.fs_record_dump matches Some(d) && dump_matches(
                        d,
                        w,
                        index,
                        volume_oid,
                        root->0.paddr,
                        xid,
                    ),
                    None => rep.fs_record_dump is None,
                }
            }
            &&& rep.status@ == "supported"@
            &&& rep.status_reason is None
            &&& root_failed(f) <==> gap is Some
            &&& gap matches Some(g) ==> root_gap_prefix(volume_oid).is_prefix_of(g@)
        },
{
    reveal(supported_fate);
    let volume_omap_resolver = OmapResolver::open(image, block_size, summary.omap_oid)?;
    let volume_omap_summary = volume_omap_resolver.summarize(image, block_size, xid, 8)?;
    let root_tree_lookup = volume_omap_resolver.lookup(image, block_size, summary.root_tree_virtual_oid, xid)?;
    let mut gap: Option<String> = None;
    let fs_record_dump = match &root_tree_lookup {
        Some(root_value) => match validate_fs_root_header(image, block_size, root_value, xid) {
            Ok(()) => Some(
                dump_fs_records(
                    image,
                    block_size,
                    index,
                    volume_oid,
                    root_value.paddr,
                    xid,
                    &volume_omap_resolver,
                )?,
            ),
            Err(err) => {
                let mut note = msg_num("FS-tree root for volume oid ", volume_oid, " did not validate: ");
                let ghost prefix = note@;
                note.append(err.message().as_str());
                assert(prefix.is_prefix_of(note@)) by {
                    assert(note@.subrange(0, prefix.len() as int) =~= prefix);
                }
                gap = Some(note);
                None
            },
        },
        None => None,
    };
    let rep = VolumeReport {
        fs_oid_index: index,
        volume_oid,
        container_omap_lookup: volume_value,
        summary,
        volume_omap: Some(volume_omap_summary),
        root_tree_lookup,
        fs_record_dump,
        status: owned("supported"),
        status_reason: None,
    };
    Ok((rep, gap))
}


// ---- the selected checkpoint ------------------------------------------------- //

/// What the native dump of the selected checkpoint validated.
#[derive(Debug, Clone)]
pub struct NativeValidationReport {
    pub checkpoint_map_validated: bool,
    pub container_omap_loaded: bool,
    pub container_feature_allowlist_ok: bool,
    pub volume_count: u32,
    pub volume_supported_count: u32,
    pub fs_records_dumped_count: u32,
    pub validation_gaps: Vec<String>,
}

/// The selected checkpoint and everything the native dump read from it.
#[derive(Debug, Clone)]
pub struct SelectedCheckpoint {
    pub block_address: u64,
    pub xid: u64,
    pub container: ContainerSummary,
    pub checkpoint_map: CheckpointMapSummary,
    pub container_omap: OmapSummary,
    pub volumes: Vec<VolumeReport>,
    pub native_validation: NativeValidationReport,
}

/// A container summary of the superblock at `addr`, when it decodes.
pub open spec fn chosen_container(image: Seq<u8>, bs: u32, addr: u64) -> ContainerSummary {
    choose|c: ContainerSummary| #[trigger] container_matches(c, block_at(image, addr, bs as usize), addr)
}

/// The checkpoint-map ring of `c` cannot be walked to the selected
/// superblock at `addr`.
pub open spec fn ring_fails(image: Seq<u8>, bs: u32, c: ContainerSummary, addr: u64) -> bool {
    ||| c.xp_desc_blocks == 0
    ||| c.xp_desc_len == 0
    ||| c.xp_desc_len > c.xp_desc_blocks
    ||| match ring_walk(image, bs, c, addr, 0, empty_ring_walk()) {
        Ok(w) => w.trailing == 0,
        Err(_) => true,
    }
}

/// The container object map of the selected superblock.
pub open spec fn container_omap_of(image: Seq<u8>, bs: u32, addr: u64) -> Result<OmapResolver, ()> {
    spec_open(image, bs as usize, chosen_container(image, bs, addr).omap_oid)
}

/// What stops the dump before any volume is read: the superblock does not
/// read or decode, sets unknown incompatible features, disagrees with block
/// zero on the block size or descriptor base, its checkpoint-map ring does
/// not walk, or its object map does not open or tally.
pub open spec fn preamble_fails(image: Seq<u8>, bs: u32, base: u64, addr: u64) -> bool {
    let b = block_at(image, addr, bs as usize);
    let c = chosen_container(image, bs, addr);
    ||| read_failure(image.len() as int, addr, bs as usize) is Some
    ||| container_refused(b, addr)
    ||| c.unsupported_incompatible_features != 0
    ||| c.block_size != bs
    ||| c.xp_desc_base != base
    ||| ring_fails(image, bs, c, addr)
    ||| container_omap_of(image, bs, addr) is Err
    ||| container_omap_of(image, bs, addr)->Ok_0.summary_tally(image, bs as usize, c.xid, 8) is Err
}

/// The fate of each of the volumes `oids`, in order.
pub open spec fn vol_fates(image: Seq<u8>, bs: usize, cres: OmapResolver, xid: u64, oids: Seq<u64>) -> Seq<VolumeFate> {
    Seq::new(oids.len(), |i: int| volume_fate(image, bs, cres, xid, oids[i]))
}

/// The fate of each volume the selected superblock names, in order.
pub open spec fn container_fates(image: Seq<u8>, bs: u32, addr: u64) -> Seq<VolumeFate> {
    let c = chosen_container(image, bs, addr);
    vol_fates(image, bs as usize, container_omap_of(image, bs, addr)->Ok_0, c.xid, c.volume_oids@)
}

/// `e` is of kind `kind` and, where `text` is given, reads as `text`.
pub open spec fn error_fits(e: ScanError, kind: ScanFailure, text: Option<Seq<char>>) -> bool {
    &&& failure_of(e) == kind
    &&& (text matches Some(t) ==> crate::scan_error_text(e) == t)
}

/// `e` fits the refusal `refusal`, when one is fixed.
pub open spec fn refusal_fits(e: ScanError, refusal: Option<(ScanFailure, Option<Seq<char>>)>) -> bool {
    match refusal {
        Some((kind, text)) => error_fits(e, kind, text),
        None => true,
    }
}

/// The text of an `InvalidObject` refusal with reason `reason`.
pub open spec fn invalid_object_text(reason: Seq<char>) -> Option<Seq<char>> {
    Some("APFS object validation failed: "@ + reason)
}

pub open spec fn unknown_features_text(features: u64) -> Seq<char> {
    "container sets unknown incompatible features "@ + hex_prefixed(features as nat)
}

pub open spec fn block_size_mismatch_text(found: u32, expected: u32) -> Seq<char> {
    "selected NXSB block_size "@ + decimal(found as nat) + " does not match block-zero block_size "@ + decimal(
        expected as nat,
    )
}

pub open spec fn base_mismatch_text(found: u64, expected: u64) -> Seq<char> {
    "selected NXSB descriptor base "@ + decimal(found as nat) + " does not match block-zero base "@ + decimal(
        expected as nat,
    )
}

/// Which refusal the native dump of the checkpoint at `addr` returns, as
/// its kind and, where fixed, its text; the gates in the order they are
/// tried: the superblock read, its decoding, unknown incompatible
/// features, the block size and descriptor base against block zero, then
/// the checkpoint-map ring. `None` past those gates.
pub open spec fn native_refusal(image: Seq<u8>, bs: u32, base: u64, addr: u64) -> Option<(ScanFailure, Option<Seq<char>>)> {
    let b = block_at(image, addr, bs as usize);
    let c = chosen_container(image, bs, addr);
    if read_failure(image.len() as int, addr, bs as usize) is Some {
        Some((read_failure(image.len() as int, addr, bs as usize)->Some_0, None))
    } else if container_refused(b, addr) {
        Some((ScanFailure::InvalidObject, None))
    } else if c.unsupported_incompatible_features != 0 {
        Some(
            (
                ScanFailure::UnsupportedContainerFeature,
                Some("unsupported container feature: "@ + unknown_features_text(c.unsupported_incompatible_features)),
            ),
        )
    } else if c.block_size != bs {
        Some((ScanFailure::InvalidObject, invalid_object_text(block_size_mismatch_text(c.block_size, bs))))
    } else if c.xp_desc_base != base {
        Some((ScanFailure::InvalidObject, invalid_object_text(base_mismatch_text(c.xp_desc_base, base))))
    } else if c.xp_desc_blocks == 0 || c.xp_desc_len == 0 {
        Some((ScanFailure::InvalidObject, invalid_object_text(empty_area_text())))
    } else if c.xp_desc_len > c.xp_desc_blocks {
        Some((ScanFailure::InvalidObject, invalid_object_text(ring_too_long_text(c.xp_desc_len, c.xp_desc_blocks))))
    } else {
        match ring_walk(image, bs, c, addr, 0, empty_ring_walk()) {
            Err(Some(t)) => Some((ScanFailure::InvalidObject, invalid_object_text(t))),
            Err(None) => None,
            Ok(w) => if w.trailing == 0 {
                Some((ScanFailure::InvalidObject, invalid_object_text(no_trailing_text())))
            } else {
                None
            },
        }
    }
}

/// The first gap of an aborted dump: `native dump aborted: `, then the
/// text of the refusal the dump returned.
pub open spec fn abort_gap_fits(gap: Seq<char>, image: Seq<u8>, bs: u32, base: u64, addr: u64) -> bool {
    exists|e: ScanError|
        #[trigger] refusal_fits(e, native_refusal(image, bs, base, addr)) && gap == "native dump aborted: "@
            + crate::scan_error_text(e)
}

/// The native dump of the checkpoint whose superblock is at `addr` fails.
#[verifier::opaque]
pub open spec fn native_fails(image: Seq<u8>, bs: u32, base: u64, addr: u64) -> bool {
    ||| preamble_fails(image, bs, base, addr)
    ||| exists|i: int| 0 <= i < container_fates(image, bs, addr).len() && #[trigger] container_fates(image, bs, addr)[i] is Fails
}

/// How many of the first `n` fates are supported volumes.
pub open spec fn count_supported(fs: Seq<VolumeFate>, n: int) -> nat
    decreases n,
{
    if n <= 0 {
        0
    } else {
        count_supported(fs, n - 1) + if fs[n - 1] is Supported { 1nat } else { 0nat }
    }
}

/// How many of the first `n` fates had their FS-tree dumped.
pub open spec fn count_dumped(fs: Seq<VolumeFate>, n: int) -> nat
    decreases n,
{
    if n <= 0 {
        0
    } else {
        count_dumped(fs, n - 1) + if fs[n - 1] matches VolumeFate::Supported { walk, .. } && walk is Some {
            1nat
        } else {
            0nat
        }
    }
}

/// A validation gap as the contract knows it: exactly this text, or text
/// beginning with this prefix.
pub open spec fn note_fits(note: Seq<char>, pattern: (Seq<char>, bool)) -> bool {
    if pattern.1 {
        note == pattern.0
    } else {
        pattern.0.is_prefix_of(note)
    }
}

pub open spec fn notes_fit(notes: Seq<String>, patterns: Seq<(Seq<char>, bool)>) -> bool {
    &&& notes.len() == patterns.len()
    &&& forall|i: int| 0 <= i < notes.len() ==> note_fits(#[trigger] notes[i]@, patterns[i])
}

pub open spec fn missing_map_last_gap() -> Seq<char> {
    "no checkpoint-map block carried CHECKPOINT_MAP_LAST; relying on length only"@
}

pub open spec fn zero_volumes_gap() -> Seq<char> {
    "container exposed zero volume superblock OIDs"@
}

/// The gaps recorded for the first `n` volumes.
pub open spec fn volume_gap_patterns(fs: Seq<VolumeFate>, oids: Seq<u64>, n: int) -> Seq<(Seq<char>, bool)>
    decreases n,
{
    if n <= 0 {
        Seq::empty()
    } else {
        volume_gap_patterns(fs, oids, n - 1) + if root_failed(fs[n - 1]) {
            seq![(root_gap_prefix(oids[n - 1]), false)]
        } else {
            Seq::empty()
        }
    }
}

/// The gap recorded when the ring carried no `CHECKPOINT_MAP_LAST`.
pub open spec fn ring_gap_patterns(w: RingWalk) -> Seq<(Seq<char>, bool)> {
    if !w.last_flag_seen && w.map_blocks.len() > 0 {
        seq![(missing_map_last_gap(), true)]
    } else {
        Seq::empty()
    }
}

/// Every validation gap of a successful dump, in order.
pub open spec fn gap_patterns(w: RingWalk, fs: Seq<VolumeFate>, oids: Seq<u64>) -> Seq<(Seq<char>, bool)> {
    ring_gap_patterns(w) + volume_gap_patterns(fs, oids, oids.len() as int) + if oids.len() == 0 {
        seq![(zero_volumes_gap(), true)]
    } else {
        Seq::empty()
    }
}

/// `sel` and `gaps` report the successful native dump of the checkpoint
/// `highest`.
#[verifier::opaque]
pub open spec fn selected_ok(sel: SelectedCheckpoint, gaps: Seq<String>, image: Seq<u8>, bs: u32, highest: NxsbCandidate) -> bool {
    let addr = highest.block_address;
    let c = chosen_container(image, bs, addr);
    let cres = container_omap_of(image, bs, addr)->Ok_0;
    let w = ring_walk(image, bs, c, addr, 0, empty_ring_walk())->Ok_0;
    let fs = container_fates(image, bs, addr);
    let oids = c.volume_oids@;
    let v = sel.native_validation;
    &&& sel.block_address == addr
    &&& sel.xid == highest.xid
    &&& container_matches(sel.container, block_at(image, addr, bs as usize), addr)
    &&& ring_summary_matches(sel.checkpoint_map, w)
    &&& summary_matches(sel.container_omap, cres.phys, cres.summary_tally(image, bs as usize, c.xid, 8)->Ok_0)
    &&& sel.volumes@.len() == oids.len()
    &&& forall|i: int|
        0 <= i < oids.len() ==> volume_report_ok(
            #[trigger] sel.volumes@[i],
            fs[i],
            image,
            bs as usize,
            i as u32,
            oids[i],
            c.xid,
        )
    &&& notes_fit(gaps, gap_patterns(w, fs, oids))
    &&& v.checkpoint_map_validated
    &&& v.container_omap_loaded
    &&& v.container_feature_allowlist_ok
    &&& v.volume_count == oids.len()
    &&& v.volume_supported_count == count_supported(fs, oids.len() as int)
    &&& v.fs_records_dumped_count == count_dumped(fs, oids.len() as int)
    &&& texts(v.validation_gaps@) == texts(gaps)
}

proof fn lemma_ring_walk_same(
    image: Seq<u8>,
    bs: u32,
    c1: ContainerSummary,
    c2: ContainerSummary,
    sel: u64,
    off: u32,
    w: RingWalk,
)
    requires
        c1.xp_desc_index == c2.xp_desc_index,
        c1.xp_desc_blocks == c2.xp_desc_blocks,
        c1.xp_desc_base == c2.xp_desc_base,
        c1.xp_desc_len == c2.xp_desc_len,
        c1.xid == c2.xid,
    ensures
        ring_walk(image, bs, c1, sel, off, w) == ring_walk(image, bs, c2, sel, off, w),
    decreases c1.xp_desc_len - off,
{
    reveal(ring_step);
    if off < c1.xp_desc_len {
        assert(ring_step(image, bs, c1, sel, off, w) == ring_step(image, bs, c2, sel, off, w));
        match ring_step(image, bs, c1, sel, off, w) {
            Ok(w2) => lemma_ring_walk_same(image, bs, c1, c2, sel, (off + 1) as u32, w2),
            Err(_) => {},
        }
    }
}

proof fn lemma_volume_oids_len(b: Seq<u8>, n: int)
    requires
        n >= 0,
    ensures
        volume_oids_upto(b, n).len() <= n,
    decreases n,
{
    if n > 0 {
        lemma_volume_oids_len(b, n - 1);
    }
}

proof fn lemma_counts_bounded(fs: Seq<VolumeFate>, n: int)
    requires
        n >= 0,
    ensures
        count_supported(fs, n) <= n,
        count_dumped(fs, n) <= n,
    decreases n,
{
    if n > 0 {
        lemma_counts_bounded(fs, n - 1);
    }
}

/// Copies a list of texts.
fn copy_texts(v: &Vec<String>) -> (r: Vec<String>)
    ensures
        texts(r@) == texts(v@),
{
    let mut out: Vec<String> = Vec::new();
    let mut i: usize = 0;
    while i < v.len()
        invariant
            i <= v@.len(),
            texts(out@) == texts(v@.subrange(0, i as int)),
        decreases v@.len() - i,
    {
        let ghost before = out@;
        let item = v[i].clone();
        out.push(item);
        proof {
            assert(v@.subrange(0, i + 1) =~= v@.subrange(0, i as int).push(v@[i as int]));
            assert(out@ =~= before.push(item));
            assert(texts(out@) =~= texts(before).push(item@));
            assert(texts(v@.subrange(0, i + 1)) =~= texts(v@.subrange(0, i as int)).push(v@[i as int]@));
        }
        i = i + 1;
    }
    assert(v@.subrange(0, v@.len() as int) =~= v@);
    out
}

/// Reports the volumes `oids` in order, appending the gaps of volumes whose
/// FS-tree root did not validate to `gaps`. Returns the reports and the
/// numbers of supported and of dumped volumes.
fn report_volumes(
    image: &[u8],
    bsu: usize,
    cres: &OmapResolver,
    xid: u64,
    oids: &Vec<u64>,
    gaps: &mut Vec<String>,
    Ghost(pre): Ghost<Seq<(Seq<char>, bool)>>,
) -> (r: Result<(Vec<VolumeReport>, u32, u32), ScanError>)
    requires
        bsu >= 4096,
        oids@.len() <= 100,
        notes_fit(old(gaps)@, pre),
    ensures
        ({
            let fs = vol_fates(image@, bsu, *cres, xid, oids@);
            &&& r is Err <==> exists|i: int| 0 <= i < fs.len() && #[trigger] fs[i] is Fails
            &&& r matches Ok((reps, supported, dumped)) ==> {
                &&& reps@.len() == oids@.len()
                &&& forall|k: int|
                    0 <= k < oids@.len() ==> volume_report_ok(#[trigger] reps@[k], fs[k], image@, bsu, k as u32, oids@[k], xid)
                &&& supported == count_supported(fs, oids@.len() as int)
                &&& dumped == count_dumped(fs, oids@.len() as int)
                &&& notes_fit(final(gaps)@, pre + volume_gap_patterns(fs, oids@, oids@.len() as int))
            }
        }),
{
    let ghost fs = vol_fates(image@, bsu, *cres, xid, oids@);
    let n = oids.len();
    let mut reports: Vec<VolumeReport> = Vec::new();
    let mut supported: u32 = 0;
    let mut dumped: u32 = 0;
    let mut i: usize = 0;
    assert(pre + volume_gap_patterns(fs, oids@, 0) =~= pre);
    while i < n
        invariant
            bsu >= 4096,
            n == oids@.len(),
            n <= 100,
            i <= n,
            fs == vol_fates(image@, bsu, *cres, xid, oids@),
            reports@.len() == i,
            forall|k: int| 0 <= k < i ==> !(#[trigger] fs[k] is Fails),
            forall|k: int|
                0 <= k < i ==> volume_report_ok(#[trigger] reports@[k], fs[k], image@, bsu, k as u32, oids@[k], xid),
            supported == count_supported(fs, i as int),
            dumped == count_dumped(fs, i as int),
            notes_fit(gaps@, pre + volume_gap_patterns(fs, oids@, i as int)),
        decreases n - i,
    {
        let oid = oids[i];
        let ghost f = fs[i as int];
        assert(f == volume_fate(image@, bsu, *cres, xid, oid));
        let (rep, gap) = match volume_report(image, bsu, cres, xid, i as u32, oid) {
            Ok(pair) => pair,
            Err(e) => {
                assert(fs[i as int] is Fails);
                return Err(e);
            },
        };
        proof {
            lemma_counts_bounded(fs, i as int);
        }
        if rep.volume_omap.is_some() {
            supported = supported + 1;
        }
        if rep.fs_record_dump.is_some() {
            dumped = dumped + 1;
        }
        let ghost before = gaps@;
        if let Some(g) = gap {
            gaps.push(g);
        }
        proof {
            let p = pre + volume_gap_patterns(fs, oids@, i as int);
            let q = pre + volume_gap_patterns(fs, oids@, i + 1);
            if root_failed(f) {
                assert(q =~= p.push((root_gap_prefix(oid), false)));
            } else {
                assert(q =~= p);
            }
            assert forall|j: int| 0 <= j < gaps@.len() implies note_fits(#[trigger] gaps@[j]@, q[j]) by {
                if j < before.len() {
                    assert(gaps@[j] == before[j]);
                }
            }
        }
        reports.push(rep);
        i = i + 1;
    }
    Ok((reports, supported, dumped))
}

/// Dumps the checkpoint `highest` that the descriptor scan `report`
/// selected: decodes its container superblock, walks its checkpoint-map
/// ring, opens and tallies the container object map, then reports every
/// volume the superblock names.
///
/// Fails exactly when [`native_fails`] holds; on success the result is
/// described by [`selected_ok`].
pub fn attempt_native_dump(image: &[u8], report: &ScanReport, highest: &NxsbCandidate) -> (r: Result<
    (SelectedCheckpoint, Vec<String>),
    ScanError,
>)
    requires
        block_size_allowed(report.block_size),
    ensures
        r is Err <==> native_fails(image@, report.block_size, report.descriptor_base, highest.block_address),
        native_refusal(image@, report.block_size, report.descriptor_base, highest.block_address) is Some ==> (r matches Err(
            e,
        ) && refusal_fits(e, native_refusal(image@, report.block_size, report.descriptor_base, highest.block_address))),
        r matches Ok((sel, gaps)) ==> selected_ok(sel, gaps@, image@, report.block_size, *highest),
{
    reveal(native_fails);
    reveal(selected_ok);
    let block_size = report.block_size;
    let bsu = block_size as usize;
    let addr = highest.block_address;
    let ghost bs = block_size;
    let ghost base = report.descriptor_base;
    let block = read_block(image, addr, bsu)?;
    assert(block@ == block_at(image@, addr, bsu));
    let container = decode_container_summary(block.as_slice(), addr)?;
    let ghost c = chosen_container(image@, bs, addr);
    assert(container_matches(c, block@, addr));
    assert(c.volume_oids@ == container.volume_oids@);
    if container.unsupported_incompatible_features != 0 {
        let mut msg = owned("container sets unknown incompatible features ");
        push_hex_prefixed(&mut msg, container.unsupported_incompatible_features);
        return Err(ScanError::UnsupportedContainerFeature(msg));
    }
    if container.block_size != block_size {
        return Err(ScanError::InvalidObject(msg_pair(
            "selected NXSB block_size ",
            container.block_size as u64,
            " does not match block-zero block_size ",
            block_size as u64,
        )));
    }
    if container.xp_desc_base != report.descriptor_base {
        return Err(ScanError::InvalidObject(msg_pair(
            "selected NXSB descriptor base ",
            container.xp_desc_base,
            " does not match block-zero base ",
            report.descriptor_base,
        )));
    }
    proof {
        lemma_ring_walk_same(image@, bs, container, c, addr, 0, empty_ring_walk());
    }
    let checkpoint_map = walk_checkpoint_maps(image, block_size, &container, addr)?;
    let ghost w = ring_walk(image@, bs, c, addr, 0, empty_ring_walk())->Ok_0;
    let mut validation_gaps: Vec<String> = Vec::new();
    if !checkpoint_map.last_flag_seen && checkpoint_map.map_blocks.len() > 0 {
        validation_gaps.push(owned("no checkpoint-map block carried CHECKPOINT_MAP_LAST; relying on length only"));
    }
    assert(notes_fit(validation_gaps@, ring_gap_patterns(w)));
    let cres = OmapResolver::open(image, bsu, container.omap_oid)?;
    let container_omap_summary = cres.summarize(image, bsu, container.xid, 8)?;
    assert(!preamble_fails(image@, bs, base, addr));
    let ghost fs = container_fates(image@, bs, addr);
    let n = container.volume_oids.len();
    proof {
        lemma_volume_oids_len(block@, NX_MAX_FILE_SYSTEMS as int);
    }
    let ghost pre = ring_gap_patterns(w);
    let (volume_reports, supported, dumped) = match report_volumes(
        image,
        bsu,
        &cres,
        container.xid,
        &container.volume_oids,
        &mut validation_gaps,
        Ghost(pre),
    ) {
        Ok(t) => t,
        Err(e) => {
            return Err(e);
        },
    };
    if volume_reports.len() == 0 {
        validation_gaps.push(owned("container exposed zero volume superblock OIDs"));
    }
    proof {
        let p = ring_gap_patterns(w) + volume_gap_patterns(fs, c.volume_oids@, n as int);
        assert(gap_patterns(w, fs, c.volume_oids@) =~= p + if n == 0 {
            seq![(zero_volumes_gap(), true)]
        } else {
            Seq::<(Seq<char>, bool)>::empty()
        });
    }
    let native_validation = NativeValidationReport {
        checkpoint_map_validated: true,
        container_omap_loaded: true,
        container_feature_allowlist_ok: true,
        volume_count: n as u32,
        volume_supported_count: supported,
        fs_records_dumped_count: dumped,
        validation_gaps: copy_texts(&validation_gaps),
    };
    let selected = SelectedCheckpoint {
        block_address: addr,
        xid: highest.xid,
        container,
        checkpoint_map,
        container_omap: container_omap_summary,
        volumes: volume_reports,
        native_validation,
    };
    Ok((selected, validation_gaps))
}


// ---- the checkpoint scan ---------------------------------------------------- //

/// What a scan reports to its users.
#[derive(Debug, Clone)]
pub struct ParserOutput {
    pub source: SourceDescriptor,
    pub scan_state: ScanState,
    pub backend_name: String,
    pub entries: Vec<NamespaceEntry>,
    pub aggregates: Vec<DirectoryAggregate>,
    pub walk_skips: Vec<WalkSkip>,
}

/// The checkpoint scan: the parser output plus everything the scan saw on
/// the way, and what it does and does not claim.
#[derive(Debug, Clone)]
pub struct CheckpointScanOutput {
    pub parser_output: ParserOutput,
    pub checkpoint_candidates: Vec<NxsbCandidate>,
    pub skipped_descriptors: Vec<SkippedDescriptor>,
    pub selected_checkpoint: Option<SelectedCheckpoint>,
    pub correctness_claim: String,
    pub not_claimed: Vec<String>,
}

/// The gaps recorded when the native dump aborted.
pub open spec fn abort_gap_patterns() -> Seq<(Seq<char>, bool)> {
    seq![
        ("native dump aborted: "@, false),
        ("checkpoint map validation not completed"@, true),
        ("container OMAP resolution not completed"@, true),
        ("volume superblock decoding not completed"@, true),
        ("FS-tree record dumping not completed"@, true),
    ]
}

/// The FS-record dump of the first volume of the selected checkpoint, if
/// there is one.
pub open spec fn first_volume_dump(sel: Option<SelectedCheckpoint>) -> Option<FsRecordDump> {
    match sel {
        Some(s) => if s.volumes@.len() > 0 {
            s.volumes@[0].fs_record_dump
        } else {
            None
        },
        None => None,
    }
}

pub open spec fn namespace_claim() -> Seq<char> {
    "Rust path emits one APFS volume's NamespaceEntry + DirectoryAggregate rows under SR-017 logical-size precedence, SR-018 stored-name preservation, and SR-019+EX-22 allocated-size precedence (regular+dstream+no-sparse-bytes -> alloced_size; sparse / decmpfs -> fail closed; symlink/dir -> 0), gated on EX-18 body-field parity, EX-19 size precedence, EX-20 name preservation, and EX-22 case-class verdict"@
}

pub open spec fn dump_claim() -> Seq<char> {
    "Rust path validates the source gate, candidate scan, container superblock, checkpoint map, container OMAP, decoded volume superblocks, and a read-only FS-tree record-body dump (no namespace rows)"@
}

pub open spec fn scan_only_claim() -> Seq<char> {
    "Rust path validates the source gate and preliminary checkpoint descriptor scan only"@
}

/// What every checkpoint scan leaves unclaimed.
pub open spec fn base_not_claimed() -> Seq<Seq<char>> {
    seq![
        "live mounted raw-scan correctness"@,
        "per-file allocated_size for sparse regular files (INO_EXT_TYPE_SPARSE_BYTES present; EX-22 saw alloced_size overstate st_blocks*512 by exactly sparse_bytes)"@,
        "per-file allocated_size for decmpfs-compressed regular files (no oracle-validated rule yet)"@,
        "exclusive / shared / snapshot-retained byte accounting"@,
        "incremental cache reuse"@,
        "encryption decryption or keybag handling"@,
        "snapshot, sealed-volume, or volume-group merged semantics"@,
        "APFS lookup-by-name (hash + normalization + case fold)"@,
        "boot-root or Finder-visible merged namespace"@,
    ]
}

pub open spec fn namespace_not_claimed() -> Seq<char> {
    "namespace entry emission and oracle-validated logical-size / allocated-size output from Rust"@
}

/// `out` reports the checkpoint scan of `image` from `source`, whose
/// descriptor scan succeeded and whose highest checkpoint is `h`.
pub open spec fn scan_output_ok(out: CheckpointScanOutput, image: Seq<u8>, source: SourceDescriptor, h: NxsbCandidate) -> bool {
    let bs = le32(image, 0x24) as u32;
    let base = descriptor_base_raw(image);
    let n = descriptor_count(image);
    let po = out.parser_output;
    let gaps = po.scan_state.validation_gaps@;
    let emitted = po.entries@.len() > 0;
    &&& out.checkpoint_candidates@ == candidates_in(image, base, bs, n as int)
    &&& skipped_view(out.skipped_descriptors@) == skipped_in(image, base, bs, n as int)
    &&& po.source == source
    &&& po.scan_state.block_size == bs
    &&& po.scan_state.descriptor_blocks == n
    &&& po.scan_state.descriptor_base == base
    &&& !po.scan_state.descriptor_base_non_contiguous
    &&& po.scan_state.highest_xid == h.xid
    &&& po.scan_state.candidate_count == out.checkpoint_candidates@.len()
    &&& po.backend_name@ == "rust-checkpoint-scan"@
    &&& if native_fails(image, bs, base, h.block_address) {
        out.selected_checkpoint is None && notes_fit(gaps, abort_gap_patterns()) && abort_gap_fits(
            gaps[0]@,
            image,
            bs,
            base,
            h.block_address,
        )
    } else {
        out.selected_checkpoint matches Some(sel) && selected_ok(sel, gaps, image, bs, h)
    }
    &&& match first_volume_dump(out.selected_checkpoint) {
        Some(d) => namespace_ok(po.entries@, po.aggregates@, po.walk_skips@, d),
        None => po.entries@.len() == 0 && po.aggregates@.len() == 0 && po.walk_skips@.len() == 0,
    }
    &&& out.correctness_claim@ == if emitted {
        namespace_claim()
    } else if out.selected_checkpoint is Some {
        dump_claim()
    } else {
        scan_only_claim()
    }
    &&& texts(out.not_claimed@) == if emitted {
        base_not_claimed()
    } else {
        seq![namespace_not_claimed()] + base_not_claimed()
    }
}

/// Pushes the texts of `items` onto `out`.
pub(crate) fn push_texts(out: &mut Vec<String>, items: &[&str])
    ensures
        texts(final(out)@) == texts(old(out)@) + items@.map_values(|t: &str| t@),
{
    let mut i: usize = 0;
    while i < items.len()
        invariant
            i <= items@.len(),
            texts(out@) == texts(old(out)@) + items@.subrange(0, i as int).map_values(|t: &str| t@),
        decreases items@.len() - i,
    {
        let ghost before = out@;
        out.push(owned(items[i]));
        proof {
            assert(items@.subrange(0, i + 1) =~= items@.subrange(0, i as int).push(items@[i as int]));
            assert(texts(out@) =~= texts(before).push(items@[i as int]@));
        }
        i = i + 1;
        assert(texts(out@) =~= texts(old(out)@) + items@.subrange(0, i as int).map_values(|t: &str| t@));
    }
    assert(items@.subrange(0, items@.len() as int) =~= items@);
}

/// The native dump of `highest`, or the gaps recorded when it aborts.
fn native_outcome(image: &[u8], report: &ScanReport, highest: &NxsbCandidate) -> (r: (Option<SelectedCheckpoint>, Vec<String>))
    requires
        block_size_allowed(report.block_size),
    ensures
        if native_fails(image@, report.block_size, report.descriptor_base, highest.block_address) {
            r.0 is None && notes_fit(r.1@, abort_gap_patterns()) && abort_gap_fits(
                r.1@[0]@,
                image@,
                report.block_size,
                report.descriptor_base,
                highest.block_address,
            )
        } else {
            r.0 matches Some(sel) && selected_ok(sel, r.1@, image@, report.block_size, *highest)
        },
{
    match attempt_native_dump(image, report, highest) {
        Ok((sel, gaps)) => (Some(sel), gaps),
        Err(error) => {
            let mut note = owned("native dump aborted: ");
            let ghost prefix = note@;
            note.append(error.message().as_str());
            proof {
                reveal_strlit("native dump aborted: ");
                assert(refusal_fits(error, native_refusal(image@, report.block_size, report.descriptor_base, highest.block_address)));
            }
            assert(prefix.is_prefix_of(note@)) by {
                assert(note@.subrange(0, prefix.len() as int) =~= prefix);
            }
            let mut gaps: Vec<String> = Vec::new();
            gaps.push(note);
            let ghost t0 = texts(gaps@);
            assert(t0 =~= seq![note@]);
            let items: [&str; 4] = [
                "checkpoint map validation not completed",
                "container OMAP resolution not completed",
                "volume superblock decoding not completed",
                "FS-tree record dumping not completed",
            ];
            push_texts(&mut gaps, items.as_slice());
            proof {
                let pats = abort_gap_patterns();
                assert(texts(gaps@) == t0 + items@.map_values(|t: &str| t@));
                assert(texts(gaps@).len() == gaps@.len());
                assert(gaps@.len() == 5);
                assert forall|j: int| 0 <= j < gaps@.len() implies note_fits(#[trigger] gaps@[j]@, pats[j]) by {
                    assert(texts(gaps@)[j] == gaps@[j]@);
                }
                assert(texts(gaps@)[0] == gaps@[0]@);
                assert(gaps@[0]@ == "native dump aborted: "@ + crate::scan_error_text(error));
                assert(abort_gap_fits(gaps@[0]@, image@, report.block_size, report.descriptor_base, highest.block_address));
            }
            (None, gaps)
        },
    }
}

/// The namespace of the first volume of `selected`, when it was dumped.
fn first_volume_namespace(selected: &Option<SelectedCheckpoint>) -> (r: (
    Vec<NamespaceEntry>,
    Vec<DirectoryAggregate>,
    Vec<WalkSkip>,
))
    ensures
        match first_volume_dump(*selected) {
            Some(d) => namespace_ok(r.0@, r.1@, r.2@, d),
            None => r.0@.len() == 0 && r.1@.len() == 0 && r.2@.len() == 0,
        },
{
    let first_dump: Option<&FsRecordDump> = match selected {
        Some(sel) => if sel.volumes.len() > 0 {
            match &sel.volumes[0].fs_record_dump {
                Some(d) => Some(d),
                None => None,
            }
        } else {
            None
        },
        None => None,
    };
    match first_dump {
        Some(dump) => build_namespace(dump),
        None => (Vec::new(), Vec::new(), Vec::new()),
    }
}

/// The correctness claim and the list of what is not claimed.
fn scan_claims(namespace_emitted: bool, selected: bool) -> (r: (String, Vec<String>))
    ensures
        r.0@ == if namespace_emitted {
            namespace_claim()
        } else if selected {
            dump_claim()
        } else {
            scan_only_claim()
        },
        texts(r.1@) == if namespace_emitted {
            base_not_claimed()
        } else {
            seq![namespace_not_claimed()] + base_not_claimed()
        },
{
    let correctness_claim = if namespace_emitted {
        owned(
            "Rust path emits one APFS volume's NamespaceEntry + DirectoryAggregate rows under SR-017 logical-size precedence, SR-018 stored-name preservation, and SR-019+EX-22 allocated-size precedence (regular+dstream+no-sparse-bytes -> alloced_size; sparse / decmpfs -> fail closed; symlink/dir -> 0), gated on EX-18 body-field parity, EX-19 size precedence, EX-20 name preservation, and EX-22 case-class verdict",
        )
    } else if selected {
        owned(
            "Rust path validates the source gate, candidate scan, container superblock, checkpoint map, container OMAP, decoded volume superblocks, and a read-only FS-tree record-body dump (no namespace rows)",
        )
    } else {
        owned("Rust path validates the source gate and preliminary checkpoint descriptor scan only")
    };
    let mut not_claimed: Vec<String> = Vec::new();
    if !namespace_emitted {
        not_claimed.push(
            owned("namespace entry emission and oracle-validated logical-size / allocated-size output from Rust"),
        );
    }
    let ghost head = texts(not_claimed@);
    let base: [&str; 9] = [
        "live mounted raw-scan correctness",
        "per-file allocated_size for sparse regular files (INO_EXT_TYPE_SPARSE_BYTES present; EX-22 saw alloced_size overstate st_blocks*512 by exactly sparse_bytes)",
        "per-file allocated_size for decmpfs-compressed regular files (no oracle-validated rule yet)",
        "exclusive / shared / snapshot-retained byte accounting",
        "incremental cache reuse",
        "encryption decryption or keybag handling",
        "snapshot, sealed-volume, or volume-group merged semantics",
        "APFS lookup-by-name (hash + normalization + case fold)",
        "boot-root or Finder-visible merged namespace",
    ];
    push_texts(&mut not_claimed, base.as_slice());
    proof {
        assert(base@.map_values(|t: &str| t@) =~= base_not_claimed());
        if namespace_emitted {
            assert(texts(not_claimed@) =~= base_not_claimed());
        } else {
            assert(head =~= seq![namespace_not_claimed()]);
        }
    }
    (correctness_claim, not_claimed)
}

/// Scans the container image `image` read from `source`: finds the
/// checkpoint candidates, dumps the highest one natively, and builds the
/// namespace of its first volume when that volume's FS-tree was dumped.
///
/// Fails exactly when the descriptor scan fails, with its error. A failed
/// native dump does not fail the scan: it is reported as validation gaps.
pub fn checkpoint_scan_source(source: SourceDescriptor, image: &[u8]) -> (r: Result<CheckpointScanOutput, ScanError>)
    ensures
        scan_failure(image@) matches Some(f) ==> (r matches Err(e) && failure_of(e) == f),
        scan_failure(image@) is None ==> (r matches Ok(out) && exists|i: int|
            is_highest_index(out.checkpoint_candidates@, i) && scan_output_ok(
                out,
                image@,
                source,
                #[trigger] out.checkpoint_candidates@[i],
            )),
{
    let report = scan_reader(image)?;
    let highest = match report.highest_candidate() {
        Some(c) => *c,
        None => {
            return Err(ScanError::NoCheckpointCandidates);
        },
    };
    let ghost hi = choose|i: int| is_highest_index(report.candidates@, i) && highest == report.candidates@[i];
    let (selected, validation_gaps) = native_outcome(image, &report, &highest);
    let (entries, aggregates, walk_skips) = first_volume_namespace(&selected);
    let (correctness_claim, not_claimed) = scan_claims(entries.len() > 0, selected.is_some());
    let scan_state = report.to_scan_state(validation_gaps);
    let parser_output = ParserOutput {
        source,
        scan_state,
        backend_name: owned("rust-checkpoint-scan"),
        entries,
        aggregates,
        walk_skips,
    };
    let out = CheckpointScanOutput {
        parser_output,
        checkpoint_candidates: report.candidates,
        skipped_descriptors: report.skipped_descriptors,
        selected_checkpoint: selected,
        correctness_claim,
        not_claimed,
    };
    proof {
        assert(is_highest_index(out.checkpoint_candidates@, hi));
        assert forall|j: int| is_highest_index(out.checkpoint_candidates@, j) implies j == hi by {
            let c = out.checkpoint_candidates@;
            if j < hi {
                assert(c[hi].xid < c[j].xid);
            } else if hi < j {
                assert(c[j].xid < c[hi].xid);
            }
        }
    }
    Ok(out)
}

/// The parser output of [`checkpoint_scan_source`].
pub fn scan_source(source: SourceDescriptor, image: &[u8]) -> (r: Result<ParserOutput, ScanError>)
    ensures
        scan_failure(image@) matches Some(f) ==> (r matches Err(e) && failure_of(e) == f),
        scan_failure(image@) is None ==> (r matches Ok(po) && exists|out: CheckpointScanOutput, i: int|
            #[trigger] is_highest_index(out.checkpoint_candidates@, i) && scan_output_ok(
                out,
                image@,
                source,
                out.checkpoint_candidates@[i],
            ) && out.parser_output == po),
{
    match checkpoint_scan_source(source, image) {
        Ok(out) => Ok(out.parser_output),
        Err(e) => Err(e),
    }
}

} // verus!
