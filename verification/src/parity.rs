//! Shape parity of two namespaces: which paths only one side has, and on
//! the paths both have, which fields disagree.
//!
//! Two scans of one volume taken close together should have nearly the
//! same shape; files come and go in between, and the raw and fallback
//! backends may disagree on `file_id` by design, so `file_id` is not
//! compared.

use vstd::prelude::*;
use vstd::utf8::{encode_utf8, encode_utf8_decode_utf8};

use crate::namespace::{entries_view, strings_view, EntryKind, EntryModel, NamespaceEntry};
use crate::sort::{bytes_le, bytes_less, bytes_lt, is_sorted, lemma_bytes_le_total_preorder, merge_sort, Sortable};
use crate::text::owned;

verus! {

/// The value of one compared field.
#[derive(Debug, Clone, PartialEq, Eq)]
pub enum FieldValue {
    Kind(EntryKind),
    Number(u64),
    Text(String),
    Null,
}

/// One field that disagrees on a path both sides have.
#[derive(Debug, Clone, PartialEq, Eq)]
pub struct PerPathDelta {
    pub path: String,
    pub field: String,
    pub left: FieldValue,
    pub right: FieldValue,
}

/// The comparison of two namespaces.
#[derive(Debug, Clone, PartialEq, Eq)]
pub struct ShapeDiff {
    /// Paths only the left side has, in byte order.
    pub only_in_left: Vec<String>,
    /// Paths only the right side has, in byte order.
    pub only_in_right: Vec<String>,
    /// Disagreeing fields on shared paths, by path in byte order, then in
    /// the order `entry_kind`, `logical_size`, `allocated_size`,
    /// `symlink_target`.
    pub mismatches: Vec<PerPathDelta>,
    pub left_count: u32,
    pub right_count: u32,
}

/// A field value, as values.
pub enum ValueModel {
    Kind(EntryKind),
    Number(u64),
    Text(Seq<char>),
    Null,
}

/// A disagreeing field, as values.
pub struct DeltaModel {
    pub path: Seq<char>,
    pub field: Seq<char>,
    pub left: ValueModel,
    pub right: ValueModel,
}

pub open spec fn value_view(v: FieldValue) -> ValueModel {
    match v {
        FieldValue::Kind(k) => ValueModel::Kind(k),
        FieldValue::Number(n) => ValueModel::Number(n),
        FieldValue::Text(t) => ValueModel::Text(t@),
        FieldValue::Null => ValueModel::Null,
    }
}

pub open spec fn delta_view(d: PerPathDelta) -> DeltaModel {
    DeltaModel { path: d.path@, field: d.field@, left: value_view(d.left), right: value_view(d.right) }
}

pub open spec fn deltas_view(v: Seq<PerPathDelta>) -> Seq<DeltaModel> {
    v.map_values(|d: PerPathDelta| delta_view(d))
}

pub open spec fn number_or_null(o: Option<u64>) -> ValueModel {
    match o {
        Some(n) => ValueModel::Number(n),
        None => ValueModel::Null,
    }
}

pub open spec fn text_or_null(o: Option<Seq<char>>) -> ValueModel {
    match o {
        Some(t) => ValueModel::Text(t),
        None => ValueModel::Null,
    }
}

/// `d` if `differs`, else nothing.
pub open spec fn delta_if(differs: bool, d: DeltaModel) -> Seq<DeltaModel> {
    if differs {
        seq![d]
    } else {
        Seq::empty()
    }
}

/// The fields on which `l` and `r` (of the same path) disagree; `file_id`
/// is not compared.
pub open spec fn entry_deltas(l: EntryModel, r: EntryModel) -> Seq<DeltaModel> {
    let p = l.path;
    delta_if(
        l.kind != r.kind,
        DeltaModel { path: p, field: "entry_kind"@, left: ValueModel::Kind(l.kind), right: ValueModel::Kind(r.kind) },
    ) + delta_if(
        l.logical != r.logical,
        DeltaModel {
            path: p,
            field: "logical_size"@,
            left: ValueModel::Number(l.logical),
            right: ValueModel::Number(r.logical),
        },
    ) + delta_if(
        l.allocated != r.allocated,
        DeltaModel {
            path: p,
            field: "allocated_size"@,
            left: number_or_null(l.allocated),
            right: number_or_null(r.allocated),
        },
    ) + delta_if(
        l.target != r.target,
        DeltaModel {
            path: p,
            field: "symlink_target"@,
            left: text_or_null(l.target),
            right: text_or_null(r.target),
        },
    )
}

/// No two entries share a path.
pub open spec fn unique_paths(es: Seq<EntryModel>) -> bool {
    forall|i: int, j: int| 0 <= i < j < es.len() ==> es[i].path != es[j].path
}

/// Some entry of `es` has path `p`.
pub open spec fn has_path(es: Seq<EntryModel>, p: Seq<char>) -> bool {
    exists|j: int| 0 <= j < es.len() && #[trigger] es[j].path == p
}

/// The entry of `es` with path `p`.
pub open spec fn entry_with_path(es: Seq<EntryModel>, p: Seq<char>) -> EntryModel {
    es[choose|j: int| 0 <= j < es.len() && #[trigger] es[j].path == p]
}

/// `k` occurs in `order`.
pub open spec fn listed(order: Seq<int>, k: int) -> bool {
    exists|i: int| 0 <= i < order.len() && #[trigger] order[i] == k
}

/// `order` lists every index of `es` once, by path in byte order.
pub open spec fn sorted_order(es: Seq<EntryModel>, order: Seq<int>) -> bool {
    &&& order.len() == es.len()
    &&& forall|i: int| 0 <= i < order.len() ==> 0 <= #[trigger] order[i] < es.len()
    &&& forall|k: int| 0 <= k < es.len() ==> #[trigger] listed(order, k)
    &&& forall|i: int, j: int|
        0 <= i < j < order.len() ==> bytes_le(encode_utf8(es[#[trigger] order[i]].path), encode_utf8(es[#[trigger] order[j]].path))
}

/// The paths of `es`, taken in `order`, that `other` lacks.
pub open spec fn only_in(es: Seq<EntryModel>, other: Seq<EntryModel>, order: Seq<int>) -> Seq<Seq<char>>
    decreases order.len(),
{
    if order.len() == 0 {
        Seq::empty()
    } else {
        let p = es[order.last()].path;
        only_in(es, other, order.drop_last()) + if has_path(other, p) {
            Seq::empty()
        } else {
            seq![p]
        }
    }
}

/// The disagreeing fields of the entries of `es`, taken in `order`, whose
/// paths `other` has too.
pub open spec fn shared_deltas(es: Seq<EntryModel>, other: Seq<EntryModel>, order: Seq<int>) -> Seq<DeltaModel>
    decreases order.len(),
{
    if order.len() == 0 {
        Seq::empty()
    } else {
        let e = es[order.last()];
        shared_deltas(es, other, order.drop_last()) + if has_path(other, e.path) {
            entry_deltas(e, entry_with_path(other, e.path))
        } else {
            Seq::empty()
        }
    }
}

/// A path with the index of its entry.
struct PathKey {
    path: String,
    index: usize,
}

impl Sortable for PathKey {
    closed spec fn sorts_before(a: PathKey, b: PathKey) -> bool {
        bytes_le(encode_utf8(a.path@), encode_utf8(b.path@))
    }

    proof fn lemma_sorts_before_total(a: PathKey, b: PathKey) {
        lemma_bytes_le_total_preorder(encode_utf8(a.path@), encode_utf8(b.path@), encode_utf8(b.path@));
    }

    proof fn lemma_sorts_before_transitive(a: PathKey, b: PathKey, c: PathKey) {
        lemma_bytes_le_total_preorder(encode_utf8(a.path@), encode_utf8(b.path@), encode_utf8(c.path@));
    }

    fn sorts_before_exec(&self, other: &PathKey) -> (r: bool) {
        !bytes_less(other.path.as_str().as_bytes(), self.path.as_str().as_bytes())
    }
}

spec fn key_listed(keys: Seq<PathKey>, k: int) -> bool {
    exists|i: int| 0 <= i < keys.len() && #[trigger] keys[i].index == k
}

/// `keys` name the entries of `es` by index, sorted by path, each index once
/// at least.
spec fn keys_ok(keys: Seq<PathKey>, es: Seq<EntryModel>) -> bool {
    &&& is_sorted(keys)
    &&& keys.len() == es.len()
    &&& forall|i: int| 0 <= i < keys.len() ==> (#[trigger] keys[i]).index < es.len() && keys[i].path@ == es[keys[i].index as int].path
    &&& forall|k: int| 0 <= k < es.len() ==> #[trigger] key_listed(keys, k)
}

fn sorted_keys(v: &[NamespaceEntry]) -> (r: Vec<PathKey>)
    ensures
        keys_ok(r@, entries_view(v@)),
{
    let mut keys: Vec<PathKey> = Vec::new();
    let mut i: usize = 0;
    while i < v.len()
        invariant
            i <= v@.len(),
            keys@.len() == i,
            forall|k: int| 0 <= k < i ==> (#[trigger] keys@[k]).index == k && keys@[k].path@ == v@[k].path@,
        decreases v@.len() - i,
    {
        keys.push(PathKey { path: owned(v[i].path.as_str()), index: i });
        i = i + 1;
    }
    let ghost before = keys@;
    let sorted = merge_sort(keys);
    proof {
        broadcast use vstd::seq_lib::to_multiset_contains;

        let es = entries_view(v@);
        assert forall|j: int| 0 <= j < sorted@.len() implies (#[trigger] sorted@[j]).index < es.len()
            && sorted@[j].path@ == es[sorted@[j].index as int].path by {
            assert(sorted@.contains(sorted@[j]));
            assert(sorted@.to_multiset().count(sorted@[j]) > 0);
            assert(before.to_multiset().count(sorted@[j]) > 0);
            assert(before.contains(sorted@[j]));
            let m = choose|m: int| 0 <= m < before.len() && before[m] == sorted@[j];
            assert(before[m].index == m);
        }
        assert forall|k: int| 0 <= k < es.len() implies #[trigger] key_listed(sorted@, k) by {
            assert(before.contains(before[k]));
            assert(before.to_multiset().count(before[k]) > 0);
            assert(sorted@.to_multiset().count(before[k]) > 0);
            assert(sorted@.contains(before[k]));
            let j = choose|j: int| 0 <= j < sorted@.len() && sorted@[j] == before[k];
            assert(sorted@[j].index == k);
        }
        assert(sorted@.len() == before.len()) by {
            assert(sorted@.to_multiset().len() == before.to_multiset().len());
            vstd::seq_lib::to_multiset_len(sorted@);
            vstd::seq_lib::to_multiset_len(before);
        }
        assert(is_sorted(sorted@));
        assert(sorted@.len() == es.len());
        assert(keys_ok(sorted@, es));
    }
    sorted
}

/// The first position whose path does not sort before `p`.
fn lower_bound(keys: &Vec<PathKey>, p: &[u8]) -> (r: usize)
    requires
        is_sorted(keys@),
    ensures
        r <= keys@.len(),
        forall|i: int| 0 <= i < r ==> bytes_lt(encode_utf8(#[trigger] keys@[i].path@), p@),
        forall|i: int| r <= i < keys@.len() ==> !bytes_lt(encode_utf8(#[trigger] keys@[i].path@), p@),
{
    let mut lo: usize = 0;
    let mut hi: usize = keys.len();
    while lo < hi
        invariant
            is_sorted(keys@),
            lo <= hi <= keys@.len(),
            forall|i: int| 0 <= i < lo ==> bytes_lt(encode_utf8(#[trigger] keys@[i].path@), p@),
            forall|i: int| hi <= i < keys@.len() ==> !bytes_lt(encode_utf8(#[trigger] keys@[i].path@), p@),
        decreases hi - lo,
    {
        let mid = lo + (hi - lo) / 2;
        if bytes_less(keys[mid].path.as_str().as_bytes(), p) {
            assert forall|i: int| 0 <= i <= mid implies bytes_lt(encode_utf8(#[trigger] keys@[i].path@), p@) by {
                if i < mid {
                    assert(PathKey::sorts_before(keys@[i], keys@[mid as int]));
                    let a = encode_utf8(keys@[i].path@);
                    let b = encode_utf8(keys@[mid as int].path@);
                    crate::sort::lemma_bytes_lt_total(a, b);
                    if bytes_lt(a, b) {
                        crate::sort::lemma_bytes_lt_transitive(a, b, p@);
                    }
                }
            }
            lo = mid + 1;
        } else {
            assert forall|i: int| mid <= i < keys@.len() implies !bytes_lt(encode_utf8(#[trigger] keys@[i].path@), p@) by {
                if mid < i {
                    assert(PathKey::sorts_before(keys@[mid as int], keys@[i]));
                    let a = encode_utf8(keys@[mid as int].path@);
                    let b = encode_utf8(keys@[i].path@);
                    if bytes_lt(b, p@) {
                        crate::sort::lemma_bytes_lt_total(a, p@);
                        if bytes_lt(p@, a) {
                            crate::sort::lemma_bytes_lt_transitive(b, p@, a);
                        }
                    }
                }
            }
            hi = mid;
        }
    }
    lo
}

fn same_bytes(a: &[u8], b: &[u8]) -> (r: bool)
    ensures
        r == (a@ == b@),
{
    if a.len() != b.len() {
        return false;
    }
    let mut i: usize = 0;
    while i < a.len()
        invariant
            a@.len() == b@.len(),
            i <= a@.len(),
            forall|k: int| 0 <= k < i ==> a@[k] == b@[k],
        decreases a@.len() - i,
    {
        if a[i] != b[i] {
            return false;
        }
        i = i + 1;
    }
    assert(a@ =~= b@);
    true
}

/// The index of the entry of `v` with path `p`, when there is one.
fn find_path(keys: &Vec<PathKey>, v: &[NamespaceEntry], p: &str) -> (r: Option<usize>)
    requires
        keys_ok(keys@, entries_view(v@)),
    ensures
        match r {
            Some(j) => j < v@.len() && v@[j as int].path@ == p@,
            None => !has_path(entries_view(v@), p@),
        },
{
    let pb = p.as_bytes();
    let lo = lower_bound(keys, pb);
    if lo < keys.len() && same_bytes(keys[lo].path.as_str().as_bytes(), pb) {
        proof {
            encode_utf8_decode_utf8(keys@[lo as int].path@);
            encode_utf8_decode_utf8(p@);
        }
        return Some(keys[lo].index);
    }
    proof {
        let es = entries_view(v@);
        if has_path(es, p@) {
            let j = choose|j: int| 0 <= j < es.len() && #[trigger] es[j].path == p@;
            assert(key_listed(keys@, j));
            let i = choose|i: int| 0 <= i < keys@.len() && #[trigger] keys@[i].index == j;
            assert(keys@[i].index == j);
            crate::sort::lemma_bytes_lt_irreflexive(encode_utf8(p@));
            assert(encode_utf8(keys@[i].path@) == encode_utf8(p@));
            assert(lo <= i);
            assert(PathKey::sorts_before(keys@[lo as int], keys@[i]) || lo == i);
            lemma_bytes_le_total_preorder(encode_utf8(keys@[lo as int].path@), encode_utf8(p@), encode_utf8(p@));
            assert(false);
        }
    }
    None
}

fn named(field: &str) -> (r: String)
    ensures
        r@ == field@,
{
    owned(field)
}

fn opt_number(o: Option<u64>) -> (r: FieldValue)
    ensures
        value_view(r) == number_or_null(o),
{
    match o {
        Some(n) => FieldValue::Number(n),
        None => FieldValue::Null,
    }
}

fn opt_text(o: &Option<String>) -> (r: FieldValue)
    ensures
        value_view(r) == text_or_null(
            match *o {
                Some(t) => Some(t@),
                None => None,
            },
        ),
{
    match o {
        Some(t) => FieldValue::Text(owned(t.as_str())),
        None => FieldValue::Null,
    }
}

fn same_target(a: &Option<String>, b: &Option<String>) -> (r: bool)
    ensures
        r == ((match *a {
            Some(t) => Some(t@),
            None => None::<Seq<char>>,
        }) == (match *b {
            Some(t) => Some(t@),
            None => None::<Seq<char>>,
        })),
{
    match (a, b) {
        (Some(x), Some(y)) => crate::namespace::str_eq(x.as_str(), y.as_str()),
        (None, None) => true,
        _ => false,
    }
}

/// Appends the fields on which `l` and `r` disagree.
fn push_deltas(l: &NamespaceEntry, r: &NamespaceEntry, out: &mut Vec<PerPathDelta>)
    ensures
        deltas_view(final(out)@) == deltas_view(old(out)@) + entry_deltas(
            crate::namespace::entry_view(*l),
            crate::namespace::entry_view(*r),
        ),
{
    let ghost lm = crate::namespace::entry_view(*l);
    let ghost rm = crate::namespace::entry_view(*r);
    let ghost start = deltas_view(out@);
    proof {
        reveal_strlit("entry_kind");
        reveal_strlit("logical_size");
        reveal_strlit("allocated_size");
        reveal_strlit("symlink_target");
    }
    if l.entry_kind != r.entry_kind {
        out.push(PerPathDelta {
            path: owned(l.path.as_str()),
            field: named("entry_kind"),
            left: FieldValue::Kind(l.entry_kind),
            right: FieldValue::Kind(r.entry_kind),
        });
    }
    let ghost s1 = start + delta_if(
        lm.kind != rm.kind,
        DeltaModel { path: lm.path, field: "entry_kind"@, left: ValueModel::Kind(lm.kind), right: ValueModel::Kind(rm.kind) },
    );
    assert(deltas_view(out@) =~= s1);
    if l.logical_size != r.logical_size {
        out.push(PerPathDelta {
            path: owned(l.path.as_str()),
            field: named("logical_size"),
            left: FieldValue::Number(l.logical_size),
            right: FieldValue::Number(r.logical_size),
        });
    }
    let ghost s2 = s1 + delta_if(
        lm.logical != rm.logical,
        DeltaModel {
            path: lm.path,
            field: "logical_size"@,
            left: ValueModel::Number(lm.logical),
            right: ValueModel::Number(rm.logical),
        },
    );
    assert(deltas_view(out@) =~= s2);
    let same_alloc = match (l.allocated_size, r.allocated_size) {
        (Some(x), Some(y)) => x == y,
        (None, None) => true,
        _ => false,
    };
    if !same_alloc {
        out.push(PerPathDelta {
            path: owned(l.path.as_str()),
            field: named("allocated_size"),
            left: opt_number(l.allocated_size),
            right: opt_number(r.allocated_size),
        });
    }
    let ghost s3 = s2 + delta_if(
        lm.allocated != rm.allocated,
        DeltaModel {
            path: lm.path,
            field: "allocated_size"@,
            left: number_or_null(lm.allocated),
            right: number_or_null(rm.allocated),
        },
    );
    assert(deltas_view(out@) =~= s3);
    if !same_target(&l.symlink_target, &r.symlink_target) {
        out.push(PerPathDelta {
            path: owned(l.path.as_str()),
            field: named("symlink_target"),
            left: opt_text(&l.symlink_target),
            right: opt_text(&r.symlink_target),
        });
    }
    let ghost s4 = s3 + delta_if(
        lm.target != rm.target,
        DeltaModel {
            path: lm.path,
            field: "symlink_target"@,
            left: text_or_null(lm.target),
            right: text_or_null(rm.target),
        },
    );
    assert(deltas_view(out@) =~= s4);
    assert(s4 =~= start + entry_deltas(lm, rm));
}

/// The indices named by `keys`, in order.
spec fn order_of(keys: Seq<PathKey>) -> Seq<int> {
    keys.map_values(|k: PathKey| k.index as int)
}

proof fn lemma_keys_order(keys: Seq<PathKey>, es: Seq<EntryModel>)
    requires
        keys_ok(keys, es),
    ensures
        sorted_order(es, order_of(keys)),
{
    let o = order_of(keys);
    assert forall|k: int| 0 <= k < es.len() implies #[trigger] listed(o, k) by {
        assert(key_listed(keys, k));
        let i = choose|i: int| 0 <= i < keys.len() && #[trigger] keys[i].index == k;
        assert(o[i] == k);
    }
    assert forall|i: int, j: int| 0 <= i < j < o.len() implies bytes_le(
        encode_utf8(es[#[trigger] o[i]].path),
        encode_utf8(es[#[trigger] o[j]].path),
    ) by {
        assert(PathKey::sorts_before(keys[i], keys[j]));
        assert(keys[i].path@ == es[o[i]].path);
        assert(keys[j].path@ == es[o[j]].path);
    }
}

/// The paths of `es` taken in the order of `keys` that `other` lacks,
/// and (when `deltas`) the fields of shared paths that disagree.
fn walk_side(
    keys: &Vec<PathKey>,
    es: &[NamespaceEntry],
    other_keys: &Vec<PathKey>,
    other: &[NamespaceEntry],
    deltas: bool,
) -> (r: (Vec<String>, Vec<PerPathDelta>))
    requires
        keys_ok(keys@, entries_view(es@)),
        keys_ok(other_keys@, entries_view(other@)),
        unique_paths(entries_view(other@)),
    ensures
        strings_view(r.0@) == only_in(entries_view(es@), entries_view(other@), order_of(keys@)),
        deltas ==> deltas_view(r.1@) == shared_deltas(entries_view(es@), entries_view(other@), order_of(keys@)),
{
    let ghost l = entries_view(es@);
    let ghost rr = entries_view(other@);
    let ghost o = order_of(keys@);
    let mut only: Vec<String> = Vec::new();
    let mut mism: Vec<PerPathDelta> = Vec::new();
    let mut i: usize = 0;
    while i < keys.len()
        invariant
            i <= keys@.len(),
            keys_ok(keys@, l),
            keys_ok(other_keys@, rr),
            unique_paths(rr),
            l == entries_view(es@),
            rr == entries_view(other@),
            o == order_of(keys@),
            strings_view(only@) == only_in(l, rr, o.take(i as int)),
            deltas ==> deltas_view(mism@) == shared_deltas(l, rr, o.take(i as int)),
        decreases keys@.len() - i,
    {
        let k = &keys[i];
        let ghost e = l[o[i as int]];
        proof {
            assert(o.take(i + 1).drop_last() =~= o.take(i as int));
            assert(o.take(i + 1).last() == o[i as int]);
            assert(k.path@ == e.path);
        }
        match find_path(other_keys, other, k.path.as_str()) {
            None => {
                let ghost before = strings_view(only@);
                only.push(owned(k.path.as_str()));
                assert(strings_view(only@) =~= before.push(e.path));
                assert(strings_view(only@) =~= only_in(l, rr, o.take(i as int)) + seq![e.path]);
                if deltas {
                    assert(shared_deltas(l, rr, o.take(i + 1)) =~= shared_deltas(l, rr, o.take(i as int)));
                }
            },
            Some(j) => {
                proof {
                    assert(rr[j as int].path == e.path);
                    assert(has_path(rr, e.path));
                    let c = choose|c: int| 0 <= c < rr.len() && #[trigger] rr[c].path == e.path;
                    if c != j {
                        if c < j {
                            assert(rr[c].path != rr[j as int].path);
                        } else {
                            assert(rr[j as int].path != rr[c].path);
                        }
                    }
                    assert(entry_with_path(rr, e.path) == rr[j as int]);
                    assert(only_in(l, rr, o.take(i + 1)) =~= only_in(l, rr, o.take(i as int)));
                }
                if deltas {
                    push_deltas(&es[k.index], &other[j], &mut mism);
                }
            },
        }
        i = i + 1;
    }
    proof {
        assert(o.take(keys@.len() as int) =~= o);
    }
    (only, mism)
}

impl ShapeDiff {
    /// How many paths only one side has.
    pub fn symmetric_difference(&self) -> (r: usize)
        requires
            self.only_in_left@.len() + self.only_in_right@.len() <= usize::MAX,
        ensures
            r == self.only_in_left@.len() + self.only_in_right@.len(),
    {
        self.only_in_left.len() + self.only_in_right.len()
    }

    /// Both sides have the same paths and no field disagrees.
    pub fn is_identical(&self) -> (r: bool)
        ensures
            r == (self.only_in_left@.len() == 0 && self.only_in_right@.len() == 0 && self.mismatches@.len() == 0),
    {
        self.only_in_left.len() == 0 && self.only_in_right.len() == 0 && self.mismatches.len() == 0
    }
}

/// Compares two namespaces by path. Every path of either side is listed
/// as only on its side or is shared; on shared paths every field but
/// `file_id` is compared. The paths of each side must be unique.
pub fn compare_namespace_shapes(left: &[NamespaceEntry], right: &[NamespaceEntry]) -> (d: ShapeDiff)
    requires
        unique_paths(entries_view(left@)),
        unique_paths(entries_view(right@)),
    ensures
        d.left_count == left@.len() as u32,
        d.right_count == right@.len() as u32,
        exists|ol: Seq<int>|
            #[trigger] sorted_order(entries_view(left@), ol) && strings_view(d.only_in_left@) == only_in(
                entries_view(left@),
                entries_view(right@),
                ol,
            ) && deltas_view(d.mismatches@) == shared_deltas(entries_view(left@), entries_view(right@), ol),
        exists|or: Seq<int>|
            #[trigger] sorted_order(entries_view(right@), or) && strings_view(d.only_in_right@) == only_in(
                entries_view(right@),
                entries_view(left@),
                or,
            ),
{
    let left_keys = sorted_keys(left);
    let right_keys = sorted_keys(right);
    let (only_in_left, mismatches) = walk_side(&left_keys, left, &right_keys, right, true);
    let (only_in_right, _) = walk_side(&right_keys, right, &left_keys, left, false);
    proof {
        lemma_keys_order(left_keys@, entries_view(left@));
        lemma_keys_order(right_keys@, entries_view(right@));
    }
    ShapeDiff {
        only_in_left,
        only_in_right,
        mismatches,
        left_count: left.len() as u32,
        right_count: right.len() as u32,
    }
}

proof fn lemma_only_in_contains(es: Seq<EntryModel>, other: Seq<EntryModel>, order: Seq<int>, p: Seq<char>)
    ensures
        only_in(es, other, order).contains(p) <==> (!has_path(other, p) && exists|i: int|
            0 <= i < order.len() && #[trigger] es[order[i]].path == p),
    decreases order.len(),
{
    if order.len() > 0 {
        let o = order.drop_last();
        lemma_only_in_contains(es, other, o, p);
        let q = es[order.last()].path;
        let prev = only_in(es, other, o);
        if has_path(other, q) {
            assert(only_in(es, other, order) =~= prev);
        } else {
            assert(only_in(es, other, order) =~= prev.push(q));
            if prev.push(q).contains(p) && !prev.contains(p) {
                let k = choose|k: int| 0 <= k < prev.push(q).len() && prev.push(q)[k] == p;
                assert(k == prev.len());
            }
            if p == q {
                assert(prev.push(q)[prev.len() as int] == p);
            }
            if prev.contains(p) {
                let k = choose|k: int| 0 <= k < prev.len() && prev[k] == p;
                assert(prev.push(q)[k] == p);
            }
        }
        if exists|i: int| 0 <= i < order.len() && #[trigger] es[order[i]].path == p {
            let i = choose|i: int| 0 <= i < order.len() && #[trigger] es[order[i]].path == p;
            if i < o.len() {
                assert(o[i] == order[i]);
            } else {
                assert(q == p);
            }
        }
        if exists|i: int| 0 <= i < o.len() && #[trigger] es[o[i]].path == p {
            let i = choose|i: int| 0 <= i < o.len() && #[trigger] es[o[i]].path == p;
            assert(order[i] == o[i]);
        }
    }
}

/// Every path of either side is in exactly one place: listed as only on
/// the left, listed as only on the right, or on both sides (and then
/// compared field by field).
pub proof fn lemma_paths_partitioned(
    left: Seq<EntryModel>,
    right: Seq<EntryModel>,
    ol: Seq<int>,
    or: Seq<int>,
    p: Seq<char>,
)
    requires
        sorted_order(left, ol),
        sorted_order(right, or),
    ensures
        only_in(left, right, ol).contains(p) <==> (has_path(left, p) && !has_path(right, p)),
        only_in(right, left, or).contains(p) <==> (has_path(right, p) && !has_path(left, p)),
{
    lemma_only_in_contains(left, right, ol, p);
    lemma_only_in_contains(right, left, or, p);
    if has_path(left, p) {
        let k = choose|k: int| 0 <= k < left.len() && #[trigger] left[k].path == p;
        assert(listed(ol, k));
        let i = choose|i: int| 0 <= i < ol.len() && #[trigger] ol[i] == k;
        assert(left[ol[i]].path == p);
    }
    if has_path(right, p) {
        let k = choose|k: int| 0 <= k < right.len() && #[trigger] right[k].path == p;
        assert(listed(or, k));
        let i = choose|i: int| 0 <= i < or.len() && #[trigger] or[i] == k;
        assert(right[or[i]].path == p);
    }
    if exists|i: int| 0 <= i < ol.len() && #[trigger] left[ol[i]].path == p {
        let i = choose|i: int| 0 <= i < ol.len() && #[trigger] left[ol[i]].path == p;
        assert(left[ol[i]].path == p);
    }
    if exists|i: int| 0 <= i < or.len() && #[trigger] right[or[i]].path == p {
        let i = choose|i: int| 0 <= i < or.len() && #[trigger] right[or[i]].path == p;
        assert(right[or[i]].path == p);
    }
}

} // verus!
