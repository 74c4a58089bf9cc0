//! The decisions of the POSIX-traversal fallback walker.
//!
//! When the raw parser cannot be used, a mounted directory is walked with
//! ordinary directory reads and `lstat`, and the walk is reported in the
//! same `NamespaceEntry` / `DirectoryAggregate` shape. Reading directories
//! and metadata is the caller's work: it asks [`FallbackWalk::next_dir`]
//! which directory to list next, lists it, and hands the result to
//! [`FallbackWalk::record_listing`]. This module decides what each listed
//! entry contributes, which subtrees are entered or skipped, and what the
//! finished scan reports.
//!
//! Directories are named relative to the root, with `.` for the root
//! itself. Per-entry failures do not stop the walk: they are recorded as
//! walk skips (`permission_denied`, `not_found`, `mount_boundary`,
//! `non_utf8_name`, `read_error:..`).

use vstd::prelude::*;
use vstd::utf8::encode_utf8;

use crate::checkpoint::ScanState;
use crate::fs_record_body::texts;
use crate::namespace::{
    build_aggregates, child_path, entries_view, skips_view, str_eq, strings_view, DirectoryAggregate, EntryKind,
    EntryModel, NamespaceEntry, SkipModel, WalkSkip,
};
use crate::native::{push_texts, ParserOutput};
use crate::sort::{bytes_le, bytes_less, is_sorted, lemma_bytes_le_total_preorder, merge_sort, Sortable};
use crate::source::SourceDescriptor;
use crate::text::owned;

verus! {

/// What the caller may choose about a fallback walk.
#[derive(Debug, Clone, Copy, PartialEq, Eq, Structural)]
pub struct FallbackOptions {
    /// Descend into directories that live on another device than the root.
    pub cross_mounts: bool,
}

/// A snapshot of the walk's progress.
#[derive(Debug, Clone, Copy, PartialEq, Eq, Structural)]
pub struct ProgressEvent {
    pub scanned: u64,
    pub skipped: u64,
    pub elapsed_micros: u64,
    /// `true` for the last event of a walk.
    pub terminal: bool,
}

/// What the metadata calls reported of one directory entry.
#[derive(Debug, Clone)]
pub enum ChildMeta {
    /// `lstat` (or the bulk reader) succeeded. `size` is `st_size`,
    /// `allocated_bytes` the bytes the kernel reports allocated, and
    /// `link_target` what `readlink` gave for a symlink (its target, or the
    /// reason it failed).
    Stat {
        kind: EntryKind,
        file_id: u64,
        size: u64,
        allocated_bytes: u64,
        dev_id: u64,
        link_target: Option<Result<String, String>>,
    },
    /// The metadata call failed, for the given reason.
    Failed(String),
}

/// One entry of a listed directory.
#[derive(Debug, Clone)]
pub struct ChildReport {
    pub name: String,
    pub meta: ChildMeta,
}

/// The outcome of listing one directory.
#[derive(Debug, Clone)]
pub enum DirListing {
    /// The entries of the directory whose names are UTF-8, in any order,
    /// and the paths, lossily decoded, of those whose names are not.
    Children(Vec<ChildReport>, Vec<String>),
    /// The directory could not be read, for the given reason.
    Unreadable(String),
}

/// The state of a fallback walk.
pub struct FallbackWalk {
    /// Device of the root directory.
    pub root_dev: u64,
    pub cross_mounts: bool,
    pub entries: Vec<NamespaceEntry>,
    pub walk_skips: Vec<WalkSkip>,
    /// Directories still to list, relative to the root; the last is listed
    /// next.
    pub pending: Vec<String>,
}

/// What the walk has produced so far, as values.
pub struct WalkModel {
    pub entries: Seq<EntryModel>,
    pub skips: Seq<SkipModel>,
    pub pending: Seq<Seq<char>>,
}

/// Top-level names the walker leaves out.
pub open spec fn top_level_skipped(name: Seq<char>) -> bool {
    name == ".fseventsd"@ || name == ".Spotlight-V100"@ || name == ".Trashes"@
}

pub open spec fn mount_boundary_reason() -> Seq<char> {
    "mount_boundary"@
}

pub open spec fn non_utf8_reason() -> Seq<char> {
    "non_utf8_name"@
}

/// The logical size and symlink target of an entry of kind `kind`, and
/// the reason `readlink` failed if it did.
pub open spec fn size_and_target(kind: EntryKind, size: u64, link: Option<Result<String, String>>) -> (
    u64,
    Option<Seq<char>>,
    Option<Seq<char>>,
) {
    match kind {
        EntryKind::Symlink => match link {
            Some(Ok(t)) => ((encode_utf8(t@).len() as usize) as u64, Some(t@), None),
            Some(Err(reason)) => (0, None, Some(reason@)),
            None => (0, None, None),
        },
        EntryKind::File => (size, None, None),
        _ => (0, None, None),
    }
}

/// What one entry of the directory at `rel` adds to the walk.
pub open spec fn child_step(w: WalkModel, rel: Seq<char>, c: ChildReport, root_dev: u64, cross: bool) -> WalkModel {
    let p = child_path(rel, c.name@);
    if rel == "."@ && top_level_skipped(c.name@) {
        w
    } else {
        match c.meta {
            ChildMeta::Failed(reason) => WalkModel {
                skips: w.skips.push(SkipModel { path: p, reason: reason@ }),
                ..w
            },
            ChildMeta::Stat { kind, file_id, size, allocated_bytes, dev_id, link_target } => {
                let st = size_and_target(kind, size, link_target);
                let skips1 = match st.2 {
                    Some(reason) => w.skips.push(SkipModel { path: p, reason }),
                    None => w.skips,
                };
                let entry = EntryModel {
                    path: p,
                    kind,
                    file_id,
                    logical: st.0,
                    target: st.1,
                    allocated: if kind == EntryKind::File {
                        Some(allocated_bytes)
                    } else {
                        Some(0u64)
                    },
                };
                let entries = w.entries.push(entry);
                if kind != EntryKind::Dir {
                    WalkModel { entries, skips: skips1, pending: w.pending }
                } else if !cross && dev_id != root_dev {
                    WalkModel {
                        entries,
                        skips: skips1.push(SkipModel { path: p, reason: mount_boundary_reason() }),
                        pending: w.pending,
                    }
                } else {
                    WalkModel { entries, skips: skips1, pending: w.pending.push(p) }
                }
            },
        }
    }
}

/// The entries `cs[i..]` of the directory at `rel`, taken in order.
pub open spec fn children_from(w: WalkModel, rel: Seq<char>, cs: Seq<ChildReport>, i: int, root_dev: u64, cross: bool) -> WalkModel
    decreases cs.len() - i,
{
    if i < 0 || i >= cs.len() {
        w
    } else {
        children_from(child_step(w, rel, cs[i], root_dev, cross), rel, cs, i + 1, root_dev, cross)
    }
}

/// Entries sorted by the bytes of their names.
pub open spec fn sorted_by_name(cs: Seq<ChildReport>) -> bool {
    is_sorted(cs)
}

/// What a listing of the directory at `rel` adds: its UTF-8-named
/// entries taken in the order `sorted`, then one `non_utf8_name` skip
/// for each entry whose name is not UTF-8; the other entries are kept.
pub open spec fn listing_step(
    w: WalkModel,
    rel: Seq<char>,
    listing: DirListing,
    sorted: Seq<ChildReport>,
    root_dev: u64,
    cross: bool,
) -> WalkModel {
    match listing {
        DirListing::Unreadable(reason) => WalkModel { skips: w.skips.push(SkipModel { path: rel, reason: reason@ }), ..w },
        DirListing::Children(_, bad_names) => {
            let w2 = children_from(w, rel, sorted, 0, root_dev, cross);
            WalkModel { skips: w2.skips + non_utf8_skips(bad_names@), ..w2 }
        },
    }
}

/// One `non_utf8_name` skip for each of `paths`, in order.
pub open spec fn non_utf8_skips(paths: Seq<String>) -> Seq<SkipModel> {
    paths.map_values(|p: String| SkipModel { path: p@, reason: non_utf8_reason() })
}

impl Sortable for ChildReport {
    open spec fn sorts_before(a: ChildReport, b: ChildReport) -> bool {
        bytes_le(encode_utf8(a.name@), encode_utf8(b.name@))
    }

    proof fn lemma_sorts_before_total(a: ChildReport, b: ChildReport) {
        lemma_bytes_le_total_preorder(encode_utf8(a.name@), encode_utf8(b.name@), encode_utf8(b.name@));
    }

    proof fn lemma_sorts_before_transitive(a: ChildReport, b: ChildReport, c: ChildReport) {
        lemma_bytes_le_total_preorder(encode_utf8(a.name@), encode_utf8(b.name@), encode_utf8(c.name@));
    }

    fn sorts_before_exec(&self, other: &ChildReport) -> (r: bool) {
        !bytes_less(other.name.as_str().as_bytes(), self.name.as_str().as_bytes())
    }
}

impl Sortable for WalkSkip {
    open spec fn sorts_before(a: WalkSkip, b: WalkSkip) -> bool {
        bytes_le(encode_utf8(a.path@), encode_utf8(b.path@))
    }

    proof fn lemma_sorts_before_total(a: WalkSkip, b: WalkSkip) {
        lemma_bytes_le_total_preorder(encode_utf8(a.path@), encode_utf8(b.path@), encode_utf8(b.path@));
    }

    proof fn lemma_sorts_before_transitive(a: WalkSkip, b: WalkSkip, c: WalkSkip) {
        lemma_bytes_le_total_preorder(encode_utf8(a.path@), encode_utf8(b.path@), encode_utf8(c.path@));
    }

    fn sorts_before_exec(&self, other: &WalkSkip) -> (r: bool) {
        !bytes_less(other.path.as_str().as_bytes(), self.path.as_str().as_bytes())
    }
}

/// The file-type bits of `st_mode` name kinds one to one: a directory,
/// symbolic link or regular file exactly when they read `S_IFDIR`,
/// `S_IFLNK` or `S_IFREG`; the permission bits play no part.
pub proof fn lemma_mode_kinds_one_to_one(mode: u32, other: u32)
    ensures
        (kind_of_mode(mode) == EntryKind::Dir) <==> (mode & 0o170000 == 0o040000),
        (kind_of_mode(mode) == EntryKind::Symlink) <==> (mode & 0o170000 == 0o120000),
        (kind_of_mode(mode) == EntryKind::File) <==> (mode & 0o170000 == 0o100000),
        mode & 0o170000 == other & 0o170000 ==> kind_of_mode(mode) == kind_of_mode(other),
{
}

/// The entry kind of an `st_mode`: its file-type bits.
pub open spec fn kind_of_mode(mode: u32) -> EntryKind {
    let t = mode & 0o170000;
    if t == 0o040000 {
        EntryKind::Dir
    } else if t == 0o120000 {
        EntryKind::Symlink
    } else if t == 0o100000 {
        EntryKind::File
    } else {
        EntryKind::Other
    }
}

/// The entry kind `lstat` reports through `st_mode`.
pub fn entry_kind_from_mode(mode: u32) -> (r: EntryKind)
    ensures
        r == kind_of_mode(mode),
{
    let t = mode & 0o170000;
    if t == 0o040000 {
        EntryKind::Dir
    } else if t == 0o120000 {
        EntryKind::Symlink
    } else if t == 0o100000 {
        EntryKind::File
    } else {
        EntryKind::Other
    }
}

/// Allocated bytes of `st_blocks` 512-byte blocks, saturating.
pub fn bytes_of_blocks(blocks: u64) -> (r: u64)
    ensures
        r == (if blocks * 512 > u64::MAX { u64::MAX as int } else { blocks * 512 }),
{
    if blocks > u64::MAX / 512 {
        u64::MAX
    } else {
        blocks * 512
    }
}

fn is_top_level_skipped(name: &str) -> (r: bool)
    ensures
        r == top_level_skipped(name@),
{
    str_eq(name, ".fseventsd") || str_eq(name, ".Spotlight-V100") || str_eq(name, ".Trashes")
}

fn join_child(rel: &str, name: &str) -> (r: String)
    ensures
        r@ == child_path(rel@, name@),
{
    if str_eq(rel, ".") {
        owned(name)
    } else {
        let mut p = owned(rel);
        p.append("/");
        p.append(name);
        p
    }
}

fn byte_len(s: &str) -> (r: u64)
    ensures
        r == (encode_utf8(s@).len() as usize) as u64,
{
    s.len() as u64
}

fn copy_text(s: &String) -> (r: String)
    ensures
        r@ == s@,
{
    owned(s.as_str())
}

impl FallbackWalk {
    /// The walk's state as values.
    pub open spec fn model(&self) -> WalkModel {
        WalkModel {
            entries: entries_view(self.entries@),
            skips: skips_view(self.walk_skips@),
            pending: strings_view(self.pending@),
        }
    }

    /// A walk of a root directory on device `root_dev`: nothing found yet,
    /// the root itself (`.`) still to list.
    pub fn new(root_dev: u64, options: FallbackOptions) -> (w: Self)
        ensures
            w.root_dev == root_dev,
            w.cross_mounts == options.cross_mounts,
            w.model().entries.len() == 0,
            w.model().skips.len() == 0,
            w.model().pending == seq!["."@],
    {
        let mut pending: Vec<String> = Vec::new();
        pending.push(owned("."));
        let w = FallbackWalk {
            root_dev,
            cross_mounts: options.cross_mounts,
            entries: Vec::new(),
            walk_skips: Vec::new(),
            pending,
        };
        assert(w.model().pending =~= seq!["."@]);
        w
    }

    /// The next directory to list, taken off the pending list: the one
    /// found last. `None` when the walk is done.
    pub fn next_dir(&mut self) -> (r: Option<String>)
        ensures
            final(self).root_dev == old(self).root_dev,
            final(self).cross_mounts == old(self).cross_mounts,
            final(self).model().entries == old(self).model().entries,
            final(self).model().skips == old(self).model().skips,
            old(self).model().pending.len() == 0 ==> r is None && final(self).model().pending.len() == 0,
            old(self).model().pending.len() > 0 ==> (r matches Some(d) && d@ == old(self).model().pending.last()
                && final(self).model().pending == old(self).model().pending.drop_last()),
    {
        let r = self.pending.pop();
        proof {
            if old(self).pending@.len() > 0 {
                assert(strings_view(self.pending@) =~= strings_view(old(self).pending@).drop_last());
            }
        }
        r
    }

    /// A progress snapshot: entries found and skips recorded so far.
    pub fn progress(&self, elapsed_micros: u64, terminal: bool) -> (e: ProgressEvent)
        ensures
            e.scanned == self.entries@.len(),
            e.skipped == self.walk_skips@.len(),
            e.elapsed_micros == elapsed_micros,
            e.terminal == terminal,
    {
        ProgressEvent {
            scanned: self.entries.len() as u64,
            skipped: self.walk_skips.len() as u64,
            elapsed_micros,
            terminal,
        }
    }

    /// Takes in what one entry of the directory at `rel` reported.
    fn record_child(&mut self, rel: &str, child: &ChildReport)
        ensures
            final(self).root_dev == old(self).root_dev,
            final(self).cross_mounts == old(self).cross_mounts,
            final(self).model() == child_step(old(self).model(), rel@, *child, old(self).root_dev, old(self).cross_mounts),
    {
        let ghost w = self.model();
        if str_eq(rel, ".") && is_top_level_skipped(child.name.as_str()) {
            return;
        }
        let path = join_child(rel, child.name.as_str());
        match &child.meta {
            ChildMeta::Failed(reason) => {
                self.walk_skips.push(WalkSkip { path, reason: copy_text(reason) });
                proof {
                    assert(self.model().skips =~= w.skips.push(SkipModel { path: path@, reason: reason@ }));
                    assert(self.model().entries =~= w.entries);
                    assert(self.model().pending =~= w.pending);
                }
            },
            ChildMeta::Stat { kind, file_id, size, allocated_bytes, dev_id, link_target } => {
                let kind = *kind;
                let ghost st = size_and_target(kind, *size, *link_target);
                let (logical_size, symlink_target): (u64, Option<String>) = match kind {
                    EntryKind::Symlink => match link_target {
                        Some(Ok(t)) => (byte_len(t.as_str()), Some(copy_text(t))),
                        Some(Err(reason)) => {
                            self.walk_skips.push(WalkSkip { path: copy_text(&path), reason: copy_text(reason) });
                            (0, None)
                        },
                        None => (0, None),
                    },
                    EntryKind::File => (*size, None),
                    _ => (0, None),
                };
                let ghost skips1 = match st.2 {
                    Some(reason) => w.skips.push(SkipModel { path: path@, reason }),
                    None => w.skips,
                };
                assert(skips_view(self.walk_skips@) =~= skips1);
                let allocated_size: Option<u64> = match kind {
                    EntryKind::File => Some(*allocated_bytes),
                    _ => Some(0),
                };
                let is_dir = match kind {
                    EntryKind::Dir => true,
                    _ => false,
                };
                let entry = NamespaceEntry {
                    path: copy_text(&path),
                    entry_kind: kind,
                    file_id: *file_id,
                    logical_size,
                    symlink_target,
                    allocated_size,
                };
                let ghost em = crate::namespace::entry_view(entry);
                self.entries.push(entry);
                assert(self.model().entries =~= w.entries.push(em));
                if is_dir {
                    if !self.cross_mounts && *dev_id != self.root_dev {
                        self.walk_skips.push(WalkSkip { path, reason: owned("mount_boundary") });
                        proof {
                            reveal_strlit("mount_boundary");
                            assert(self.model().skips =~= skips1.push(
                                SkipModel { path: child_path(rel@, child.name@), reason: mount_boundary_reason() },
                            ));
                            assert(self.model().pending =~= w.pending);
                        }
                    } else {
                        self.pending.push(path);
                        assert(self.model().pending =~= w.pending.push(child_path(rel@, child.name@)));
                    }
                } else {
                    assert(self.model().pending =~= w.pending);
                }
            },
        }
    }

    /// Takes in the listing of the directory at `rel`: its entries are
    /// taken in byte order of their names.
    pub fn record_listing(&mut self, rel: &str, listing: DirListing)
        ensures
            final(self).root_dev == old(self).root_dev,
            final(self).cross_mounts == old(self).cross_mounts,
            listing matches DirListing::Children(cs, _) ==> exists|sorted: Seq<ChildReport>|
                #![trigger sorted_by_name(sorted)]
                {
                    &&& sorted_by_name(sorted)
                    &&& sorted.to_multiset() == cs@.to_multiset()
                    &&& final(self).model() == listing_step(
                        old(self).model(),
                        rel@,
                        listing,
                        sorted,
                        old(self).root_dev,
                        old(self).cross_mounts,
                    )
                },
            !(listing is Children) ==> final(self).model() == listing_step(
                old(self).model(),
                rel@,
                listing,
                Seq::empty(),
                old(self).root_dev,
                old(self).cross_mounts,
            ),
    {
        let ghost w = self.model();
        match listing {
            DirListing::Unreadable(reason) => {
                self.walk_skips.push(WalkSkip { path: owned(rel), reason });
                proof {
                    assert(self.model().skips =~= w.skips.push(SkipModel { path: rel@, reason: reason@ }));
                    assert(self.model().entries =~= w.entries);
                    assert(self.model().pending =~= w.pending);
                    assert(self.model() == listing_step(w, rel@, listing, Seq::empty(), self.root_dev, self.cross_mounts));
                }
            },
            DirListing::Children(cs, bad_names) => {
                let ghost original = cs@;
                let ghost bad = bad_names@;
                let sorted = merge_sort(cs);
                let ghost target = children_from(w, rel@, sorted@, 0, self.root_dev, self.cross_mounts);
                let mut i: usize = 0;
                while i < sorted.len()
                    invariant
                        i <= sorted@.len(),
                        self.root_dev == old(self).root_dev,
                        self.cross_mounts == old(self).cross_mounts,
                        target == children_from(w, rel@, sorted@, 0, old(self).root_dev, old(self).cross_mounts),
                        target == children_from(self.model(), rel@, sorted@, i as int, old(self).root_dev, old(self).cross_mounts),
                    decreases sorted@.len() - i,
                {
                    self.record_child(rel, &sorted[i]);
                    i = i + 1;
                }
                let mut j: usize = 0;
                while j < bad_names.len()
                    invariant
                        j <= bad_names@.len(),
                        bad_names@ == bad,
                        self.root_dev == old(self).root_dev,
                        self.cross_mounts == old(self).cross_mounts,
                        self.model() == (WalkModel { skips: target.skips + non_utf8_skips(bad.take(j as int)), ..target }),
                    decreases bad_names@.len() - j,
                {
                    let ghost before = self.model();
                    self.walk_skips.push(WalkSkip { path: copy_text(&bad_names[j]), reason: owned("non_utf8_name") });
                    proof {
                        reveal_strlit("non_utf8_name");
                        assert(non_utf8_skips(bad.take(j + 1)) =~= non_utf8_skips(bad.take(j as int)).push(
                            SkipModel { path: bad[j as int]@, reason: non_utf8_reason() },
                        ));
                        assert(self.model().skips =~= before.skips.push(
                            SkipModel { path: bad[j as int]@, reason: non_utf8_reason() },
                        ));
                        assert(self.model().entries =~= before.entries);
                        assert(self.model().pending =~= before.pending);
                    }
                    j = j + 1;
                }
                proof {
                    assert(bad.take(bad.len() as int) =~= bad);
                    assert(sorted_by_name(sorted@));
                    assert(self.model() == listing_step(w, rel@, listing, sorted@, self.root_dev, self.cross_mounts));
                }
            },
        }
    }

    /// The finished scan of the directory that `requested_path` resolved
    /// to (`resolved_path`): entries and skips in byte order of their
    /// paths, the per-directory aggregates, and what the fallback claims.
    pub fn finish(self, requested_path: &str, resolved_path: &str) -> (r: FallbackScanOutput)
        ensures
            fallback_output_ok(r, self.entries@, self.walk_skips@, requested_path@, resolved_path@, self.cross_mounts),
    {
        let cross = self.cross_mounts;
        let entries = merge_sort(self.entries);
        let walk_skips = merge_sort(self.walk_skips);
        let aggregates = build_aggregates(entries.as_slice());
        let allowlist_reason = if cross {
            owned("POSIX traversal fallback for mounted source (cross-mount enabled)")
        } else {
            owned("POSIX traversal fallback for mounted source (does not cross mount boundaries)")
        };
        let descriptor = SourceDescriptor {
            requested_path: owned(requested_path),
            raw_container_path: owned(resolved_path),
            source_kind: owned("mounted_directory"),
            allowlist_reason,
        };
        let scan_state = ScanState {
            block_size: 0,
            descriptor_blocks: 0,
            descriptor_base: 0,
            descriptor_base_non_contiguous: false,
            highest_xid: 0,
            candidate_count: 0,
            validation_gaps: Vec::new(),
        };
        let parser_output = ParserOutput {
            source: descriptor,
            scan_state,
            backend_name: owned("rust-fallback-posix-walk"),
            entries,
            aggregates,
            walk_skips,
        };
        let correctness_claim = if cross {
            owned(
                "Rust path emits one mounted directory's NamespaceEntry + DirectoryAggregate rows via POSIX traversal; logical size is st_size for files and symlink target length for symlinks; per-entry permission/access errors are skipped and recorded in walk_skips; mount boundaries are crossed (--cross-mounts)",
            )
        } else {
            owned(
                "Rust path emits one mounted directory's NamespaceEntry + DirectoryAggregate rows via POSIX traversal; logical size is st_size for files and symlink target length for symlinks; per-entry permission/access errors are skipped and recorded in walk_skips; mount boundaries are not crossed (default)",
            )
        };
        let mut not_claimed: Vec<String> = Vec::new();
        let items: [&str; 9] = [
            "raw APFS-specific size sources (dstream / decmpfs precedence)",
            "live mounted raw-scan correctness",
            "physical/shared/exclusive accounting",
            "incremental cache reuse",
            "encryption decryption or keybag handling",
            "snapshot, sealed-volume, or volume-group merged semantics",
            "APFS lookup-by-name (hash + normalization + case fold)",
            "boot-root or Finder-visible merged namespace",
            "subtrees recorded in walk_skips (the walker reports them but does not read through them)",
        ];
        push_texts(&mut not_claimed, items.as_slice());
        proof {
            assert(texts(Seq::<String>::empty()) =~= Seq::<Seq<char>>::empty());
            assert(items@.map_values(|t: &str| t@) =~= fallback_not_claimed());
            assert(texts(not_claimed@) =~= fallback_not_claimed());
        }
        FallbackScanOutput { parser_output, correctness_claim, not_claimed }
    }
}

/// The fallback scan's report.
pub struct FallbackScanOutput {
    pub parser_output: ParserOutput,
    pub correctness_claim: String,
    pub not_claimed: Vec<String>,
}

pub open spec fn fallback_claim(cross: bool) -> Seq<char> {
    if cross {
        "Rust path emits one mounted directory's NamespaceEntry + DirectoryAggregate rows via POSIX traversal; logical size is st_size for files and symlink target length for symlinks; per-entry permission/access errors are skipped and recorded in walk_skips; mount boundaries are crossed (--cross-mounts)"@
    } else {
        "Rust path emits one mounted directory's NamespaceEntry + DirectoryAggregate rows via POSIX traversal; logical size is st_size for files and symlink target length for symlinks; per-entry permission/access errors are skipped and recorded in walk_skips; mount boundaries are not crossed (default)"@
    }
}

pub open spec fn fallback_allowlist_reason(cross: bool) -> Seq<char> {
    if cross {
        "POSIX traversal fallback for mounted source (cross-mount enabled)"@
    } else {
        "POSIX traversal fallback for mounted source (does not cross mount boundaries)"@
    }
}

pub open spec fn fallback_not_claimed() -> Seq<Seq<char>> {
    seq![
        "raw APFS-specific size sources (dstream / decmpfs precedence)"@,
        "live mounted raw-scan correctness"@,
        "physical/shared/exclusive accounting"@,
        "incremental cache reuse"@,
        "encryption decryption or keybag handling"@,
        "snapshot, sealed-volume, or volume-group merged semantics"@,
        "APFS lookup-by-name (hash + normalization + case fold)"@,
        "boot-root or Finder-visible merged namespace"@,
        "subtrees recorded in walk_skips (the walker reports them but does not read through them)"@,
    ]
}

/// `out` reports a walk that found `entries` and recorded `skips`: both
/// sorted by path, the aggregates over the sorted entries, the source, and
/// the claims.
pub open spec fn fallback_output_ok(
    out: FallbackScanOutput,
    entries: Seq<NamespaceEntry>,
    skips: Seq<WalkSkip>,
    requested: Seq<char>,
    resolved: Seq<char>,
    cross: bool,
) -> bool {
    let po = out.parser_output;
    &&& is_sorted(po.entries@)
    &&& po.entries@.to_multiset() == entries.to_multiset()
    &&& is_sorted(po.walk_skips@)
    &&& po.walk_skips@.to_multiset() == skips.to_multiset()
    &&& crate::namespace::aggregates_of(po.aggregates@, po.entries@)
    &&& po.source.requested_path@ == requested
    &&& po.source.raw_container_path@ == resolved
    &&& po.source.source_kind@ == "mounted_directory"@
    &&& po.source.allowlist_reason@ == fallback_allowlist_reason(cross)
    &&& po.scan_state.block_size == 0 && po.scan_state.descriptor_blocks == 0 && po.scan_state.descriptor_base == 0
    &&& !po.scan_state.descriptor_base_non_contiguous && po.scan_state.highest_xid == 0
    &&& po.scan_state.candidate_count == 0 && po.scan_state.validation_gaps@.len() == 0
    &&& po.backend_name@ == "rust-fallback-posix-walk"@
    &&& out.correctness_claim@ == fallback_claim(cross)
    &&& texts(out.not_claimed@) == fallback_not_claimed()
}

} // verus!
