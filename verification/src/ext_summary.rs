//! Per-extension totals of a subtree: every non-directory node reached
//! through directories is grouped by its extension, one row per extension,
//! ranked by the active metric.

use vstd::prelude::*;

use crate::namespace::{str_eq, EntryKind};
use crate::source::ascii_lower;
use crate::sort::{merge_sort, is_sorted, Sortable};
use crate::text::{chars_of, owned, push_char};
use crate::tree::{Tree, TreeNode};

verus! {

/// Which size a ranking uses.
#[derive(Copy, Clone, Debug, PartialEq, Eq, Structural)]
pub enum Metric {
    Logical,
    Allocated,
}

/// The size `metric` picks: logical bytes, or allocated bytes with an
/// unknown total counted as zero.
pub open spec fn metric_of(logical: u64, allocated: Option<u64>, metric: Metric) -> u64 {
    match metric {
        Metric::Logical => logical,
        Metric::Allocated => match allocated {
            Some(a) => a,
            None => 0,
        },
    }
}

/// The subtree size of `node` under `metric`.
pub fn metric_value(node: &TreeNode, metric: Metric) -> (r: u64)
    ensures
        r == metric_of(node.value_logical, node.value_allocated, metric),
{
    match metric {
        Metric::Logical => node.value_logical,
        Metric::Allocated => match node.value_allocated {
            Some(a) => a,
            None => 0,
        },
    }
}

/// One extension's totals.
#[derive(Debug, Clone, PartialEq, Eq)]
pub struct ExtRow {
    /// Lowercase extension with its leading dot, or `(no ext)`,
    /// `(symlink)`, `(other)`, `(dir)`.
    pub ext: String,
    pub value_logical: u64,
    /// `None` when a contributing node has no allocated size.
    pub value_allocated: Option<u64>,
    pub file_count: u32,
}

/// The extension rows of a subtree.
#[derive(Debug)]
pub struct ExtSummary {
    pub rows: Vec<ExtRow>,
    /// Sum of the rows' metric values.
    pub total_value: u64,
    /// Whether some contributing node has no allocated size.
    pub any_unclaimed: bool,
}

// ---- extensions ----------------------------------------------------------------- //

/// Index of the last `.` in `name[0..n]`.
pub open spec fn last_dot(name: Seq<char>, n: int) -> Option<int>
    decreases n,
{
    if n <= 0 {
        None
    } else if name[n - 1] == '.' {
        Some(n - 1)
    } else {
        last_dot(name, n - 1)
    }
}

/// The extension key of a node: kind markers for non-files; for files the
/// text from the last `.` on, ASCII-lowercased, when that dot is neither
/// first nor last; `(no ext)` otherwise.
pub open spec fn ext_key(name: Seq<char>, kind: EntryKind) -> Seq<char> {
    match kind {
        EntryKind::Symlink => "(symlink)"@,
        EntryKind::Other => "(other)"@,
        EntryKind::Dir => "(dir)"@,
        EntryKind::File => match last_dot(name, name.len() as int) {
            Some(d) => if 0 < d < name.len() - 1 {
                name.subrange(d, name.len() as int).map_values(|c: char| ascii_lower(c))
            } else {
                "(no ext)"@
            },
            None => "(no ext)"@,
        },
    }
}

fn lower_char(c: char) -> (r: char)
    ensures
        r == ascii_lower(c),
{
    if 'A' <= c && c <= 'Z' {
        ((c as u8) + 32) as char
    } else {
        c
    }
}

/// The extension key of a node (see [`ext_key`]).
pub fn extension_of(name: &str, kind: EntryKind) -> (r: String)
    ensures
        r@ == ext_key(name@, kind),
{
    match kind {
        EntryKind::Symlink => owned("(symlink)"),
        EntryKind::Other => owned("(other)"),
        EntryKind::Dir => owned("(dir)"),
        EntryKind::File => {
            let chars = chars_of(name);
            let n = chars.len();
            let mut i = n;
            while i > 0
                invariant
                    kind == EntryKind::File,
                    chars@ == name@,
                    n == chars@.len(),
                    i <= n,
                    last_dot(name@, n as int) == last_dot(name@, i as int),
                decreases i,
            {
                if chars[i - 1] == '.' {
                    let d = i - 1;
                    if d > 0 && d < n - 1 {
                        let mut out = String::new();
                        let mut k = d;
                        while k < n
                            invariant
                                kind == EntryKind::File,
                                last_dot(name@, n as int) == Some(d as int),
                                0 < d < n - 1,
                                chars@ == name@,
                                n == chars@.len(),
                                d <= k <= n,
                                out@ == name@.subrange(d as int, k as int).map_values(|c: char| ascii_lower(c)),
                            decreases n - k,
                        {
                            push_char(&mut out, lower_char(chars[k]));
                            k = k + 1;
                            assert(out@ =~= name@.subrange(d as int, k as int).map_values(|c: char| ascii_lower(c)));
                        }
                        return out;
                    }
                    return owned("(no ext)");
                }
                i = i - 1;
            }
            owned("(no ext)")
        },
    }
}

// ---- the subtree's contributing nodes -------------------------------------------- //

/// The nodes of the subtree at `i` that contribute a row: `i` itself when
/// it is not a directory, else those of its children's subtrees, in child
/// order.
pub open spec fn contributors(t: Tree, i: int) -> Seq<u32>
    decreases t.nodes@.len() - i, t.children_spec(i).len() + 1,
{
    if i < 0 || i >= t.nodes@.len() {
        Seq::empty()
    } else if t.nodes@[i].kind != EntryKind::Dir {
        seq![i as u32]
    } else {
        contributors_from(t, i, 0)
    }
}

/// The contributors of the children of `i` from position `k` on.
pub open spec fn contributors_from(t: Tree, i: int, k: int) -> Seq<u32>
    decreases t.nodes@.len() - i, t.children_spec(i).len() - k,
{
    let ch = t.children_spec(i);
    if i < 0 || i >= t.nodes@.len() || k < 0 || k >= ch.len() {
        Seq::empty()
    } else if i < ch[k] < t.nodes@.len() {
        contributors(t, ch[k] as int) + contributors_from(t, i, k + 1)
    } else {
        contributors_from(t, i, k + 1)
    }
}

/// A row as the contract sees it.
pub struct RowModel {
    pub ext: Seq<char>,
    pub logical: u64,
    pub allocated: Option<u64>,
    pub count: u32,
}

pub open spec fn row_model(r: ExtRow) -> RowModel {
    RowModel { ext: r.ext@, logical: r.value_logical, allocated: r.value_allocated, count: r.file_count }
}

/// `row` after one more contributor of sizes `logical`, `allocated`.
pub open spec fn add_to_row(row: RowModel, logical: u64, allocated: Option<u64>) -> RowModel {
    RowModel {
        ext: row.ext,
        logical: row.logical.saturating_add(logical),
        allocated: match (row.allocated, allocated) {
            (Some(a), Some(v)) => Some(a.saturating_add(v)),
            _ => None,
        },
        count: row.count.saturating_add(1),
    }
}

/// Position of the row for `ext` in `rows`.
pub open spec fn row_index(rows: Seq<RowModel>, ext: Seq<char>) -> Option<int> {
    if exists|k: int| 0 <= k < rows.len() && (#[trigger] rows[k]).ext == ext {
        Some(choose|k: int| 0 <= k < rows.len() && (#[trigger] rows[k]).ext == ext)
    } else {
        None
    }
}

/// The rows after grouping contributor `n`: its extension's row is
/// updated, or a new row appended.
pub open spec fn group_one(rows: Seq<RowModel>, n: TreeNode) -> Seq<RowModel> {
    let ext = ext_key(n.name@, n.kind);
    match row_index(rows, ext) {
        Some(k) => rows.update(k, add_to_row(rows[k], n.logical_size, n.allocated_size)),
        None => rows.push(
            add_to_row(RowModel { ext, logical: 0, allocated: Some(0), count: 0 }, n.logical_size, n.allocated_size),
        ),
    }
}

/// The rows of the first `k` contributors `cs`, in order of first
/// appearance.
pub open spec fn grouped(t: Tree, cs: Seq<u32>, k: int) -> Seq<RowModel>
    decreases k,
{
    if k <= 0 {
        Seq::empty()
    } else {
        group_one(grouped(t, cs, k - 1), t.nodes@[cs[k - 1] as int])
    }
}

/// No two rows share an extension.
pub open spec fn exts_distinct(rows: Seq<RowModel>) -> bool {
    forall|a: int, b: int| 0 <= a < b < rows.len() ==> (#[trigger] rows[a]).ext != (#[trigger] rows[b]).ext
}

/// Some contributor has no allocated size.
pub open spec fn some_unclaimed(t: Tree, cs: Seq<u32>) -> bool {
    exists|k: int| 0 <= k < cs.len() && t.nodes@[cs[k] as int].allocated_size is None
}

/// The sum of the rows' metric values.
pub open spec fn metric_total(rows: Seq<RowModel>, metric: Metric) -> int
    decreases rows.len(),
{
    if rows.len() == 0 {
        0
    } else {
        metric_total(rows.drop_last(), metric) + metric_of(rows.last().logical, rows.last().allocated, metric)
    }
}

/// The grouped rows of the subtree at `node_idx`.
pub open spec fn subtree_rows(t: Tree, node_idx: u32) -> Seq<RowModel> {
    let cs = contributors(t, node_idx as int);
    grouped(t, cs, cs.len() as int)
}

// ---- ranking ------------------------------------------------------------------ //

/// A row with its metric value, ranked larger values first and, among
/// equal values, by extension.
pub struct RankedRow {
    pub key: u64,
    pub row: ExtRow,
}

impl Sortable for RankedRow {
    open spec fn sorts_before(a: RankedRow, b: RankedRow) -> bool {
        a.key > b.key || (a.key == b.key && String::sorts_before(a.row.ext, b.row.ext))
    }

    proof fn lemma_sorts_before_total(a: RankedRow, b: RankedRow) {
        String::lemma_sorts_before_total(a.row.ext, b.row.ext);
    }

    proof fn lemma_sorts_before_transitive(a: RankedRow, b: RankedRow, c: RankedRow) {
        if a.key == b.key && b.key == c.key {
            String::lemma_sorts_before_transitive(a.row.ext, b.row.ext, c.row.ext);
        }
    }

    fn sorts_before_exec(&self, other: &RankedRow) -> (r: bool) {
        self.key > other.key || (self.key == other.key && self.row.ext.sorts_before_exec(&other.row.ext))
    }
}

/// `a` may precede `b` when ranking for `metric`: a larger metric value,
/// or an equal one and an extension that sorts no later.
pub open spec fn rank_ok(a: ExtRow, b: ExtRow, metric: Metric) -> bool {
    let x = metric_of(a.value_logical, a.value_allocated, metric);
    let y = metric_of(b.value_logical, b.value_allocated, metric);
    x > y || (x == y && String::sorts_before(a.ext, b.ext))
}

/// `rows` are ranked for `metric`.
pub open spec fn ranked(rows: Seq<ExtRow>, metric: Metric) -> bool {
    forall|i: int, j: int| 0 <= i < j < rows.len() ==> rank_ok(#[trigger] rows[i], #[trigger] rows[j], metric)
}


// ---- building ----------------------------------------------------------------- //

/// Appends the contributors of the subtree at `i` to `out`.
fn collect_contributors(t: &Tree, i: u32, out: &mut Vec<u32>)
    requires
        t.wf(),
        i < t.nodes@.len(),
    ensures
        final(out)@ == old(out)@ + contributors(*t, i as int),
    decreases t.nodes@.len() - i, t.children_spec(i as int).len() + 1,
{
    if !matches!(t.nodes[i as usize].kind, EntryKind::Dir) {
        out.push(i);
        return;
    }
    let ch = t.children_of(i);
    let ghost start = out@;
    let mut k: usize = 0;
    while k < ch.len()
        invariant
            t.wf(),
            i < t.nodes@.len(),
            t.nodes@[i as int].kind == EntryKind::Dir,
            ch@ == t.children_spec(i as int),
            k <= ch@.len(),
            out@ + contributors_from(*t, i as int, k as int) == start + contributors_from(*t, i as int, 0),
        decreases ch@.len() - k,
    {
        let c = ch[k];
        let ghost n = t.nodes@[i as int];
        assert(c == t.children_arena@[n.children_start + k]);
        assert(i < c < t.nodes@.len());
        let ghost before = out@;
        collect_contributors(t, c, out);
        proof {
            assert(contributors_from(*t, i as int, k as int) == contributors(*t, c as int) + contributors_from(
                *t,
                i as int,
                k + 1,
            ));
            assert(out@ + contributors_from(*t, i as int, k + 1) =~= before + contributors_from(*t, i as int, k as int));
        }
        k = k + 1;
    }
    proof {
        assert(contributors_from(*t, i as int, k as int) =~= Seq::<u32>::empty());
        assert(out@ =~= start + contributors(*t, i as int));
    }
}

/// Position of the row for `ext`.
fn find_row(rows: &Vec<ExtRow>, ext: &str) -> (r: Option<usize>)
    ensures
        match r {
            Some(k) => k < rows@.len() && rows@[k as int].ext@ == ext@,
            None => forall|k: int| 0 <= k < rows@.len() ==> (#[trigger] rows@[k]).ext@ != ext@,
        },
{
    let mut k: usize = 0;
    while k < rows.len()
        invariant
            k <= rows@.len(),
            forall|j: int| 0 <= j < k ==> (#[trigger] rows@[j]).ext@ != ext@,
        decreases rows@.len() - k,
    {
        if str_eq(rows[k].ext.as_str(), ext) {
            return Some(k);
        }
        k = k + 1;
    }
    None
}

proof fn lemma_row_index(rows: Seq<RowModel>, ext: Seq<char>, k: int)
    requires
        exts_distinct(rows),
        0 <= k < rows.len(),
        rows[k].ext == ext,
    ensures
        row_index(rows, ext) == Some(k),
{
    let j = choose|j: int| 0 <= j < rows.len() && (#[trigger] rows[j]).ext == ext;
    if j != k {
        if j < k {
            assert(rows[j].ext != rows[k].ext);
        } else {
            assert(rows[k].ext != rows[j].ext);
        }
    }
}

/// The rows of the contributors `cs` (grouped, unranked), whether one of
/// them has no allocated size, and the sum of the rows' metric values.
fn group_rows(t: &Tree, cs: &Vec<u32>) -> (r: (Vec<ExtRow>, bool))
    requires
        forall|k: int| 0 <= k < cs@.len() ==> (#[trigger] cs@[k]) < t.nodes@.len(),
    ensures
        r.0@.map_values(|x: ExtRow| row_model(x)) == grouped(*t, cs@, cs@.len() as int),
        exts_distinct(grouped(*t, cs@, cs@.len() as int)),
        r.1 == some_unclaimed(*t, cs@),
{
    let mut rows: Vec<ExtRow> = Vec::new();
    let mut any_unclaimed = false;
    let mut k: usize = 0;
    assert(rows@.map_values(|x: ExtRow| row_model(x)) =~= grouped(*t, cs@, 0));
    while k < cs.len()
        invariant
            forall|j: int| 0 <= j < cs@.len() ==> (#[trigger] cs@[j]) < t.nodes@.len(),
            k <= cs@.len(),
            rows@.map_values(|x: ExtRow| row_model(x)) == grouped(*t, cs@, k as int),
            exts_distinct(grouped(*t, cs@, k as int)),
            any_unclaimed == exists|j: int| 0 <= j < k && t.nodes@[cs@[j] as int].allocated_size is None,
        decreases cs@.len() - k,
    {
        let ghost g = grouped(*t, cs@, k as int);
        let n = &t.nodes[cs[k] as usize];
        let ext = extension_of(n.name.as_str(), n.kind);
        let ghost before = rows@;
        match find_row(&rows, ext.as_str()) {
            Some(j) => {
                proof {
                    assert(g[j as int] == row_model(rows@[j as int]));
                    lemma_row_index(g, ext@, j as int);
                }
                let old_row = &rows[j];
                let new_row = ExtRow {
                    ext: old_row.ext.clone(),
                    value_logical: old_row.value_logical.saturating_add(n.logical_size),
                    value_allocated: match (old_row.value_allocated, n.allocated_size) {
                        (Some(a), Some(v)) => Some(a.saturating_add(v)),
                        _ => None,
                    },
                    file_count: old_row.file_count.saturating_add(1),
                };
                rows.set(j, new_row);
                proof {
                    let g2 = grouped(*t, cs@, k + 1);
                    assert(g2 == group_one(g, t.nodes@[cs@[k as int] as int]));
                    assert(rows@.map_values(|x: ExtRow| row_model(x)) =~= g2);
                    assert forall|a: int, b: int| 0 <= a < b < g2.len() implies (#[trigger] g2[a]).ext != (
                    #[trigger] g2[b]).ext by {
                        assert(g2[a].ext == g[a].ext && g2[b].ext == g[b].ext);
                    }
                }
            },
            None => {
                proof {
                    assert forall|j: int| 0 <= j < g.len() implies (#[trigger] g[j]).ext != ext@ by {
                        assert(g[j] == row_model(rows@[j]));
                    }
                    assert(row_index(g, ext@) is None);
                }
                let new_row = ExtRow {
                    ext,
                    value_logical: 0u64.saturating_add(n.logical_size),
                    value_allocated: match n.allocated_size {
                        Some(v) => Some(0u64.saturating_add(v)),
                        None => None,
                    },
                    file_count: 1,
                };
                rows.push(new_row);
                proof {
                    let g2 = grouped(*t, cs@, k + 1);
                    assert(rows@.map_values(|x: ExtRow| row_model(x)) =~= g2);
                    assert forall|a: int, b: int| 0 <= a < b < g2.len() implies (#[trigger] g2[a]).ext != (
                    #[trigger] g2[b]).ext by {
                        if b == g.len() {
                            assert(g[a].ext != ext@);
                        }
                    }
                }
            },
        }
        if n.allocated_size.is_none() {
            any_unclaimed = true;
        }
        proof {
            if n.allocated_size.is_none() {
                assert(t.nodes@[cs@[k as int] as int].allocated_size is None);
            }
        }
        k = k + 1;
    }
    (rows, any_unclaimed)
}

/// The metric value of a row.
fn row_metric(r: &ExtRow, metric: Metric) -> (v: u64)
    ensures
        v == metric_of(r.value_logical, r.value_allocated, metric),
{
    match metric {
        Metric::Logical => r.value_logical,
        Metric::Allocated => match r.value_allocated {
            Some(a) => a,
            None => 0,
        },
    }
}

proof fn lemma_metric_total_prefix(rows: Seq<RowModel>, metric: Metric, k: int)
    requires
        0 <= k <= rows.len(),
    ensures
        metric_total(rows.subrange(0, k), metric) <= metric_total(rows, metric),
    decreases rows.len() - k,
{
    if k < rows.len() {
        lemma_metric_total_prefix(rows, metric, k + 1);
        assert(rows.subrange(0, k + 1).drop_last() =~= rows.subrange(0, k));
    } else {
        assert(rows.subrange(0, k) =~= rows);
    }
}

impl ExtSummary {
    /// The extension rows of the subtree at `node_idx`, ranked by `metric`
    /// (larger first, ties by extension); empty when there is no such node.
    ///
    /// Requires that the rows' metric values sum within `u64`.
    pub fn build(tree: &Tree, node_idx: u32, metric: Metric) -> (r: ExtSummary)
        requires
            tree.wf(),
            metric_total(subtree_rows(*tree, node_idx), metric) <= u64::MAX,
        ensures
            ({
                let g = subtree_rows(*tree, node_idx);
                &&& r.rows@.len() == g.len()
                &&& forall|i: int| 0 <= i < r.rows@.len() ==> g.contains(row_model(#[trigger] r.rows@[i]))
                &&& forall|j: int| 0 <= j < g.len() ==> r.rows@.map_values(|x: ExtRow| row_model(x)).contains(#[trigger] g[j])
                &&& exts_distinct(g)
                &&& ranked(r.rows@, metric)
                &&& r.total_value == metric_total(g, metric)
                &&& r.any_unclaimed == some_unclaimed(*tree, contributors(*tree, node_idx as int))
            }),
    {
        if node_idx as usize >= tree.nodes.len() {
            let r = ExtSummary { rows: Vec::new(), total_value: 0, any_unclaimed: false };
            proof {
                assert(contributors(*tree, node_idx as int) =~= Seq::<u32>::empty());
                assert(subtree_rows(*tree, node_idx) =~= Seq::<RowModel>::empty());
            }
            return r;
        }
        let mut cs: Vec<u32> = Vec::new();
        collect_contributors(tree, node_idx, &mut cs);
        assert(cs@ =~= contributors(*tree, node_idx as int));
        proof {
            lemma_contributors_in_range(*tree, node_idx as int);
        }
        let (rows, any_unclaimed) = group_rows(tree, &cs);
        let ghost g = rows@.map_values(|x: ExtRow| row_model(x));
        let total_value = sum_metric(&rows, metric, Ghost(g));
        // Rank.
        let ranked_rows = rank_rows(&rows, metric);
        proof {
            lemma_same_rows(g, rows@, ranked_rows@);
        }
        ExtSummary { rows: ranked_rows, total_value, any_unclaimed }
    }
}

/// The sum of the rows' metric values.
fn sum_metric(rows: &Vec<ExtRow>, metric: Metric, Ghost(g): Ghost<Seq<RowModel>>) -> (total: u64)
    requires
        g == rows@.map_values(|x: ExtRow| row_model(x)),
        metric_total(g, metric) <= u64::MAX,
    ensures
        total == metric_total(g, metric),
{
    let mut total_value: u64 = 0;
    let mut k: usize = 0;
    while k < rows.len()
        invariant
            g == rows@.map_values(|x: ExtRow| row_model(x)),
            metric_total(g, metric) <= u64::MAX,
            k <= rows@.len(),
            total_value == metric_total(g.subrange(0, k as int), metric),
        decreases rows@.len() - k,
    {
        proof {
            lemma_metric_total_prefix(g, metric, k + 1);
            assert(g.subrange(0, k + 1).drop_last() =~= g.subrange(0, k as int));
        }
        total_value = total_value + row_metric(&rows[k], metric);
        k = k + 1;
    }
    assert(g.subrange(0, rows@.len() as int) =~= g);
    total_value
}

proof fn lemma_same_rows(g: Seq<RowModel>, rows: Seq<ExtRow>, out: Seq<ExtRow>)
    requires
        g == rows.map_values(|x: ExtRow| row_model(x)),
        forall|i: int| 0 <= i < out.len() ==> rows.contains(#[trigger] out[i]),
        forall|j: int| 0 <= j < rows.len() ==> out.contains(#[trigger] rows[j]),
    ensures
        forall|i: int| 0 <= i < out.len() ==> g.contains(row_model(#[trigger] out[i])),
        forall|j: int| 0 <= j < g.len() ==> out.map_values(|x: ExtRow| row_model(x)).contains(#[trigger] g[j]),
{
    assert forall|i: int| 0 <= i < out.len() implies g.contains(row_model(#[trigger] out[i])) by {
        assert(rows.contains(out[i]));
        let j = choose|j: int| 0 <= j < rows.len() && rows[j] == out[i];
        assert(g[j] == row_model(rows[j]));
    }
    assert forall|j: int| 0 <= j < g.len() implies out.map_values(|x: ExtRow| row_model(x)).contains(#[trigger] g[j]) by {
        assert(out.contains(rows[j]));
        let i = choose|i: int| 0 <= i < out.len() && out[i] == rows[j];
        assert(out.map_values(|x: ExtRow| row_model(x))[i] == g[j]);
    }
}

fn clone_row(r: &ExtRow) -> (c: ExtRow)
    ensures
        c == *r,
{
    ExtRow {
        ext: r.ext.clone(),
        value_logical: r.value_logical,
        value_allocated: r.value_allocated,
        file_count: r.file_count,
    }
}

/// Every element of `sorted` occurs in `w`, and the other way round.
proof fn lemma_same_elements(w: Seq<RankedRow>, sorted: Seq<RankedRow>)
    requires
        sorted.to_multiset() == w.to_multiset(),
    ensures
        w.len() == sorted.len(),
        forall|a: int| 0 <= a < sorted.len() ==> #[trigger] w.contains(sorted[a]),
        forall|j: int| 0 <= j < w.len() ==> #[trigger] sorted.contains(w[j]),
{
    vstd::seq_lib::to_multiset_len(w);
    vstd::seq_lib::to_multiset_len(sorted);
    assert forall|a: int| 0 <= a < sorted.len() implies #[trigger] w.contains(sorted[a]) by {
        vstd::seq_lib::to_multiset_contains(sorted, sorted[a]);
        vstd::seq_lib::to_multiset_contains(w, sorted[a]);
        assert(sorted.contains(sorted[a]));
    }
    assert forall|j: int| 0 <= j < w.len() implies #[trigger] sorted.contains(w[j]) by {
        vstd::seq_lib::to_multiset_contains(w, w[j]);
        vstd::seq_lib::to_multiset_contains(sorted, w[j]);
        assert(w.contains(w[j]));
    }
}

proof fn lemma_out_rows(w: Seq<RankedRow>, sorted: Seq<RankedRow>, rows: Seq<ExtRow>, out: Seq<ExtRow>)
    requires
        forall|a: int| 0 <= a < sorted.len() ==> #[trigger] w.contains(sorted[a]),
        forall|j: int| 0 <= j < w.len() ==> #[trigger] sorted.contains(w[j]),
        w.len() == rows.len(),
        forall|j: int| 0 <= j < w.len() ==> (#[trigger] w[j]).row == rows[j],
        out.len() == sorted.len(),
        forall|j: int| 0 <= j < out.len() ==> (#[trigger] out[j]) == sorted[j].row,
    ensures
        forall|i: int| 0 <= i < out.len() ==> rows.contains(#[trigger] out[i]),
        forall|j: int| 0 <= j < rows.len() ==> out.contains(#[trigger] rows[j]),
{
    assert forall|i: int| 0 <= i < out.len() implies rows.contains(#[trigger] out[i]) by {
        assert(w.contains(sorted[i]));
        let j = choose|j: int| 0 <= j < w.len() && w[j] == sorted[i];
        assert(w[j].row == rows[j]);
        assert(out[i] == rows[j]);
    }
    assert forall|j: int| 0 <= j < rows.len() implies out.contains(#[trigger] rows[j]) by {
        assert(sorted.contains(w[j]));
        let i = choose|i: int| 0 <= i < sorted.len() && sorted[i] == w[j];
        assert(w[j].row == rows[j]);
        assert(out[i] == rows[j]);
    }
}

proof fn lemma_out_ranked(w: Seq<RankedRow>, sorted: Seq<RankedRow>, out: Seq<ExtRow>, metric: Metric)
    requires
        is_sorted(sorted),
        forall|a: int| 0 <= a < sorted.len() ==> #[trigger] w.contains(sorted[a]),
        forall|j: int| 0 <= j < w.len() ==> (#[trigger] w[j]).key == metric_of(
            w[j].row.value_logical,
            w[j].row.value_allocated,
            metric,
        ),
        out.len() == sorted.len(),
        forall|j: int| 0 <= j < out.len() ==> (#[trigger] out[j]) == sorted[j].row,
    ensures
        ranked(out, metric),
{
    assert forall|a: int, b: int| 0 <= a < b < out.len() implies rank_ok(#[trigger] out[a], #[trigger] out[b], metric) by {
        assert(w.contains(sorted[a]));
        assert(w.contains(sorted[b]));
        let ja = choose|j: int| 0 <= j < w.len() && w[j] == sorted[a];
        let jb = choose|j: int| 0 <= j < w.len() && w[j] == sorted[b];
        assert(w[ja].key == metric_of(w[ja].row.value_logical, w[ja].row.value_allocated, metric));
        assert(w[jb].key == metric_of(w[jb].row.value_logical, w[jb].row.value_allocated, metric));
        assert(out[a] == sorted[a].row && out[b] == sorted[b].row);
        assert(RankedRow::sorts_before(sorted[a], sorted[b]));
    }
}

/// `rows` ranked for `metric`: the same rows, larger metric values first,
/// equal values in extension order.
fn rank_rows(rows: &Vec<ExtRow>, metric: Metric) -> (r: Vec<ExtRow>)
    ensures
        r@.len() == rows@.len(),
        forall|i: int| 0 <= i < r@.len() ==> rows@.contains(#[trigger] r@[i]),
        forall|j: int| 0 <= j < rows@.len() ==> r@.contains(#[trigger] rows@[j]),
        ranked(r@, metric),
{
    let mut wrapped: Vec<RankedRow> = Vec::new();
    let mut k: usize = 0;
    while k < rows.len()
        invariant
            k <= rows@.len(),
            wrapped@.len() == k,
            forall|j: int| 0 <= j < k ==> (#[trigger] wrapped@[j]).row == rows@[j] && wrapped@[j].key == metric_of(
                wrapped@[j].row.value_logical,
                wrapped@[j].row.value_allocated,
                metric,
            ),
        decreases rows@.len() - k,
    {
        let key = row_metric(&rows[k], metric);
        wrapped.push(RankedRow { key, row: clone_row(&rows[k]) });
        k = k + 1;
    }
    let ghost w = wrapped@;
    let sorted = merge_sort(wrapped);
    proof {
        vstd::seq_lib::to_multiset_len(w);
        vstd::seq_lib::to_multiset_len(sorted@);
    }
    let mut out: Vec<ExtRow> = Vec::new();
    let mut i: usize = 0;
    while i < sorted.len()
        invariant
            i <= sorted@.len(),
            out@.len() == i,
            forall|j: int| 0 <= j < i ==> (#[trigger] out@[j]) == sorted@[j].row,
        decreases sorted@.len() - i,
    {
        out.push(clone_row(&sorted[i].row));
        i = i + 1;
    }
    proof {
        lemma_same_elements(w, sorted@);
        lemma_out_rows(w, sorted@, rows@, out@);
        lemma_out_ranked(w, sorted@, out@, metric);
    }
    out
}

proof fn lemma_contributors_in_range(t: Tree, i: int)
    requires
        t.wf(),
    ensures
        forall|k: int| 0 <= k < contributors(t, i).len() ==> (#[trigger] contributors(t, i)[k]) < t.nodes@.len(),
    decreases t.nodes@.len() - i, t.children_spec(i).len() + 1,
{
    if 0 <= i < t.nodes@.len() && t.nodes@[i].kind == EntryKind::Dir {
        lemma_contributors_from_in_range(t, i, 0);
        assert(contributors(t, i) == contributors_from(t, i, 0));
    }
}

proof fn lemma_contributors_from_in_range(t: Tree, i: int, k: int)
    requires
        t.wf(),
    ensures
        forall|j: int| 0 <= j < contributors_from(t, i, k).len() ==> (#[trigger] contributors_from(t, i, k)[j]) < t.nodes@.len(),
    decreases t.nodes@.len() - i, t.children_spec(i).len() - k,
{
    let ch = t.children_spec(i);
    if 0 <= i < t.nodes@.len() && 0 <= k < ch.len() {
        lemma_contributors_from_in_range(t, i, k + 1);
        if !(i < ch[k] < t.nodes@.len()) {
            assert(contributors_from(t, i, k) == contributors_from(t, i, k + 1));
        } else {
            lemma_contributors_in_range(t, ch[k] as int);
            let a = contributors(t, ch[k] as int);
            let b = contributors_from(t, i, k + 1);
            assert(contributors_from(t, i, k) == a + b);
            assert forall|j: int| 0 <= j < (a + b).len() implies #[trigger] (a + b)[j] < t.nodes@.len() by {
                if j < a.len() {
                    assert((a + b)[j] == a[j]);
                } else {
                    assert((a + b)[j] == b[j - a.len()]);
                }
            }
        }
    } else {
        assert(contributors_from(t, i, k) =~= Seq::<u32>::empty());
    }
}

} // verus!
