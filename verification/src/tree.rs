//! An indexed tree built from a list of namespace entries, for random
//! access by node: node 0 is a synthetic root, every other node has a
//! parent with a smaller index, and the children of a node lie
//! contiguously in one arena.
//!
//! Building follows the entries in order. Each path is split at `/` into
//! its non-empty segments; every segment but the last names a directory,
//! found among the directory children of the current node or created; the
//! last segment creates a node for the entry (a directory only when none of
//! that name exists yet). Subtree totals are then computed bottom-up.

use vstd::prelude::*;

use crate::namespace::{str_eq, EntryKind, NamespaceEntry};
use crate::text::{chars_of, push_char};

verus! {

/// What index lookups answer for "no such node".
pub const NODE_INVALID: u32 = 0xffff_ffff;

/// One node of the tree.
#[derive(Debug)]
pub struct TreeNode {
    pub name: String,
    pub kind: EntryKind,
    pub parent: Option<u32>,
    /// The children of the node are `children_arena[children_start ..
    /// children_start + children_count]`.
    pub children_start: u32,
    pub children_count: u32,
    pub logical_size: u64,
    pub allocated_size: Option<u64>,
    pub symlink_target: Option<String>,
    /// Logical bytes of the subtree, saturating.
    pub value_logical: u64,
    /// Allocated bytes of the subtree, saturating; `None` when any node of
    /// the subtree has none.
    pub value_allocated: Option<u64>,
    /// Number of non-directory nodes in the subtree, saturating.
    pub item_count: u64,
}

#[derive(Debug)]
pub struct Tree {
    pub nodes: Vec<TreeNode>,
    pub children_arena: Vec<u32>,
}

// ---- the model ----------------------------------------------------------------- //

/// The fields of a node that building decides.
pub struct NodeModel {
    pub name: Seq<char>,
    pub kind: EntryKind,
    pub parent: Option<u32>,
    pub logical: u64,
    pub allocated: Option<u64>,
    pub symlink: Option<Seq<char>>,
}

/// The nodes and the child lists of a tree being built.
pub struct TreeModel {
    pub nodes: Seq<NodeModel>,
    pub children: Seq<Seq<u32>>,
}

pub open spec fn opt_text(o: Option<String>) -> Option<Seq<char>> {
    match o {
        Some(s) => Some(s@),
        None => None,
    }
}

/// The model of a built node.
pub open spec fn node_model(n: TreeNode) -> NodeModel {
    NodeModel {
        name: n.name@,
        kind: n.kind,
        parent: n.parent,
        logical: n.logical_size,
        allocated: n.allocated_size,
        symlink: opt_text(n.symlink_target),
    }
}

/// The tree holding only the root.
pub open spec fn root_model() -> TreeModel {
    TreeModel {
        nodes: seq![
            NodeModel {
                name: Seq::empty(),
                kind: EntryKind::Dir,
                parent: None,
                logical: 0,
                allocated: None,
                symlink: None,
            },
        ],
        children: seq![Seq::empty()],
    }
}

/// The non-empty `/`-separated segments of `p` from position `i` on, the
/// current segment having begun at `start`.
pub open spec fn segments_from(p: Seq<char>, start: int, i: int) -> Seq<Seq<char>>
    decreases p.len() + 1 - i,
{
    if i < 0 || i > p.len() || start < 0 || start > i {
        Seq::empty()
    } else if i < p.len() && p[i] != '/' {
        segments_from(p, start, i + 1)
    } else if i == start {
        segments_from(p, i + 1, i + 1)
    } else {
        seq![p.subrange(start, i)] + segments_from(p, i + 1, i + 1)
    }
}

/// The non-empty `/`-separated segments of `p`.
pub open spec fn segments(p: Seq<char>) -> Seq<Seq<char>> {
    segments_from(p, 0, 0)
}

/// The first directory child of `cursor`, from position `k` of its child
/// list on, named `name`.
pub open spec fn first_dir_child(m: TreeModel, cursor: u32, name: Seq<char>, k: int) -> Option<u32>
    decreases m.children[cursor as int].len() - k,
{
    let ch = m.children[cursor as int];
    if k < 0 || k >= ch.len() {
        None
    } else if m.nodes[ch[k] as int].kind == EntryKind::Dir && m.nodes[ch[k] as int].name == name {
        Some(ch[k])
    } else {
        first_dir_child(m, cursor, name, k + 1)
    }
}

/// The directory named `name` under `cursor`. Only directories index their
/// children by name; under any other node nothing is found.
pub open spec fn dir_lookup(m: TreeModel, cursor: u32, name: Seq<char>) -> Option<u32> {
    if m.nodes[cursor as int].kind == EntryKind::Dir {
        first_dir_child(m, cursor, name, 0)
    } else {
        None
    }
}

/// `m` with `node` appended as the last child of `cursor`.
pub open spec fn with_child(m: TreeModel, cursor: u32, node: NodeModel) -> TreeModel {
    TreeModel {
        nodes: m.nodes.push(node),
        children: m.children.update(cursor as int, m.children[cursor as int].push(m.nodes.len() as u32)).push(
            Seq::empty(),
        ),
    }
}

pub open spec fn dir_node(name: Seq<char>, parent: u32) -> NodeModel {
    NodeModel { name, kind: EntryKind::Dir, parent: Some(parent), logical: 0, allocated: None, symlink: None }
}

pub open spec fn leaf_node(name: Seq<char>, parent: u32, e: NamespaceEntry) -> NodeModel {
    NodeModel {
        name,
        kind: e.entry_kind,
        parent: Some(parent),
        logical: e.logical_size,
        allocated: e.allocated_size,
        symlink: opt_text(e.symlink_target),
    }
}

/// The tree after placing the remaining segments `segs` of entry `e`
/// below `cursor`, or `None` when a directory entry's last segment lands
/// under a node that is not a directory.
pub open spec fn place(m: TreeModel, cursor: u32, segs: Seq<Seq<char>>, e: NamespaceEntry) -> Option<TreeModel>
    decreases segs.len(),
{
    if segs.len() == 0 {
        Some(m)
    } else if segs.len() == 1 {
        if e.entry_kind == EntryKind::Dir {
            if m.nodes[cursor as int].kind != EntryKind::Dir {
                None
            } else if dir_lookup(m, cursor, segs[0]) is Some {
                Some(m)
            } else {
                Some(with_child(m, cursor, dir_node(segs[0], cursor)))
            }
        } else {
            Some(with_child(m, cursor, leaf_node(segs[0], cursor, e)))
        }
    } else {
        match dir_lookup(m, cursor, segs[0]) {
            Some(c) => place(m, c, segs.drop_first(), e),
            None => place(
                with_child(m, cursor, dir_node(segs[0], cursor)),
                m.nodes.len() as u32,
                segs.drop_first(),
                e,
            ),
        }
    }
}

/// The tree after the first `n` entries, or `None` when one of them cannot
/// be placed.
pub open spec fn build_model(entries: Seq<NamespaceEntry>, n: int) -> Option<TreeModel>
    decreases n,
{
    if n <= 0 {
        Some(root_model())
    } else {
        match build_model(entries, n - 1) {
            None => None,
            Some(m) => place(m, 0, segments(entries[n - 1].path@), entries[n - 1]),
        }
    }
}

/// The number of segments of the first `n` entries' paths.
pub open spec fn segment_total(entries: Seq<NamespaceEntry>, n: int) -> int
    decreases n,
{
    if n <= 0 {
        0
    } else {
        segment_total(entries, n - 1) + segments(entries[n - 1].path@).len()
    }
}

/// The child lists `ch[0..i]`, concatenated.
pub open spec fn flat(ch: Seq<Seq<u32>>, i: int) -> Seq<u32>
    decreases i,
{
    if i <= 0 {
        Seq::empty()
    } else {
        flat(ch, i - 1) + ch[i - 1]
    }
}

/// The structural facts building keeps: the root is a parentless
/// directory with an empty name, every other node has a smaller parent,
/// only directories have children, every entry of a child list names a
/// node in range that comes after the list's owner and whose parent is
/// that owner, and the child lists together hold one entry for each
/// non-root node.
pub open spec fn model_wf(m: TreeModel) -> bool {
    &&& m.nodes.len() >= 1
    &&& m.children.len() == m.nodes.len()
    &&& m.nodes[0].parent is None
    &&& m.nodes[0].kind == EntryKind::Dir
    &&& forall|i: int| 1 <= i < m.nodes.len() ==> ((#[trigger] m.nodes[i]).parent matches Some(p) && p < i)
    &&& forall|i: int, k: int|
        0 <= i < m.children.len() && 0 <= k < m.children[i].len() ==> i < #[trigger] m.children[i][k] < m.nodes.len()
            && m.nodes[m.children[i][k] as int].parent == Some(i as u32) && m.nodes[i].kind == EntryKind::Dir
    &&& m.nodes[0].name == Seq::<char>::empty()
    &&& flat(m.children, m.children.len() as int).len() + 1 == m.nodes.len()
}

proof fn lemma_flat_update_len(ch: Seq<Seq<u32>>, c: int, x: u32, i: int)
    requires
        0 <= c < ch.len(),
        0 <= i <= ch.len(),
    ensures
        flat(ch.update(c, ch[c].push(x)), i).len() == flat(ch, i).len() + if i > c { 1int } else { 0int },
    decreases i,
{
    if i > 0 {
        lemma_flat_update_len(ch, c, x, i - 1);
    }
}

proof fn lemma_flat_push_len(ch: Seq<Seq<u32>>, e: Seq<u32>, i: int)
    requires
        0 <= i <= ch.len(),
    ensures
        flat(ch.push(e), i) == flat(ch, i),
    decreases i,
{
    if i > 0 {
        lemma_flat_push_len(ch, e, i - 1);
    }
}

/// Child list `i` sits in the concatenation right after the lists before
/// it.
proof fn lemma_flat_slot(ch: Seq<Seq<u32>>, i: int, n: int)
    requires
        0 <= i < n <= ch.len(),
    ensures
        flat(ch, i).len() + ch[i].len() <= flat(ch, n).len(),
        forall|k: int| 0 <= k < ch[i].len() ==> #[trigger] flat(ch, n)[flat(ch, i).len() + k] == ch[i][k],
    decreases n,
{
    if i < n - 1 {
        lemma_flat_slot(ch, i, n - 1);
        assert forall|k: int| 0 <= k < ch[i].len() implies #[trigger] flat(ch, n)[flat(ch, i).len() + k] == ch[i][k] by {
            assert(flat(ch, n)[flat(ch, i).len() + k] == flat(ch, n - 1)[flat(ch, i).len() + k]);
        }
    }
}

proof fn lemma_with_child_wf(m: TreeModel, cursor: u32, node: NodeModel)
    requires
        model_wf(m),
        cursor < m.nodes.len(),
        m.nodes[cursor as int].kind == EntryKind::Dir,
        node.parent == Some(cursor),
        m.nodes.len() < 0xffff_ffff,
    ensures
        model_wf(with_child(m, cursor, node)),
        with_child(m, cursor, node).nodes.len() == m.nodes.len() + 1,
{
    let m2 = with_child(m, cursor, node);
    assert forall|i: int, k: int|
        0 <= i < m2.children.len() && 0 <= k < m2.children[i].len() implies i < #[trigger] m2.children[i][k]
        < m2.nodes.len() && m2.nodes[m2.children[i][k] as int].parent == Some(i as u32) && m2.nodes[i].kind
        == EntryKind::Dir by {
        if i == cursor as int {
            if k < m.children[i].len() {
                assert(m2.children[i][k] == m.children[i][k]);
                assert(m2.nodes[m.children[i][k] as int] == m.nodes[m.children[i][k] as int]);
            }
        } else if i < m.children.len() {
            assert(m2.children[i] == m.children[i]);
            assert(m2.nodes[m.children[i][k] as int] == m.nodes[m.children[i][k] as int]);
        }
    }
    assert forall|i: int| 1 <= i < m2.nodes.len() implies ((#[trigger] m2.nodes[i]).parent matches Some(p) && p < i) by {
        if i < m.nodes.len() {
            assert(m2.nodes[i] == m.nodes[i]);
        }
    }
    let upd = m.children.update(cursor as int, m.children[cursor as int].push(m.nodes.len() as u32));
    lemma_flat_update_len(m.children, cursor as int, m.nodes.len() as u32, m.children.len() as int);
    lemma_flat_push_len(upd, Seq::empty(), upd.len() as int);
    assert(flat(m2.children, m2.children.len() as int) =~= flat(upd, upd.len() as int) + Seq::<u32>::empty());
}

proof fn lemma_first_dir_child_range(m: TreeModel, cursor: u32, name: Seq<char>, k: int)
    requires
        model_wf(m),
        cursor < m.nodes.len(),
    ensures
        first_dir_child(m, cursor, name, k) matches Some(c) ==> (cursor < c < m.nodes.len() && m.nodes[c as int].kind
            == EntryKind::Dir),
    decreases m.children[cursor as int].len() - k,
{
    let ch = m.children[cursor as int];
    if 0 <= k < ch.len() {
        assert(cursor < ch[k] < m.nodes.len());
        lemma_first_dir_child_range(m, cursor, name, k + 1);
    }
}

proof fn lemma_place_wf(m: TreeModel, cursor: u32, segs: Seq<Seq<char>>, e: NamespaceEntry)
    requires
        model_wf(m),
        cursor < m.nodes.len(),
        m.nodes[cursor as int].kind == EntryKind::Dir,
        m.nodes.len() + segs.len() < 0xffff_ffff,
    ensures
        place(m, cursor, segs, e) matches Some(m2) ==> (model_wf(m2) && m2.nodes.len() <= m.nodes.len() + segs.len()),
    decreases segs.len(),
{
    if segs.len() == 1 {
        lemma_with_child_wf(m, cursor, dir_node(segs[0], cursor));
        lemma_with_child_wf(m, cursor, leaf_node(segs[0], cursor, e));
    } else if segs.len() > 1 {
        lemma_first_dir_child_range(m, cursor, segs[0], 0);
        match dir_lookup(m, cursor, segs[0]) {
            Some(c) => lemma_place_wf(m, c, segs.drop_first(), e),
            None => {
                lemma_with_child_wf(m, cursor, dir_node(segs[0], cursor));
                lemma_place_wf(
                    with_child(m, cursor, dir_node(segs[0], cursor)),
                    m.nodes.len() as u32,
                    segs.drop_first(),
                    e,
                );
            },
        }
    }
}

// ---- building: segments and placement ----------------------------------------- //

/// The characters `chars[a..b]` as a string.
fn string_of(chars: &Vec<char>, a: usize, b: usize) -> (r: String)
    requires
        a <= b <= chars@.len(),
    ensures
        r@ == chars@.subrange(a as int, b as int),
{
    let mut out = String::new();
    let mut k = a;
    while k < b
        invariant
            a <= k <= b <= chars@.len(),
            out@ == chars@.subrange(a as int, k as int),
        decreases b - k,
    {
        push_char(&mut out, chars[k]);
        k = k + 1;
        assert(out@ =~= chars@.subrange(a as int, k as int));
    }
    out
}

/// The non-empty `/`-separated segments of `path`.
pub fn path_segments(path: &str) -> (r: Vec<String>)
    ensures
        r@.map_values(|s: String| s@) == segments(path@),
{
    let chars = chars_of(path);
    let len = chars.len();
    let mut out: Vec<String> = Vec::new();
    let mut seg_start: usize = 0;
    let mut i: usize = 0;
    while i < len
        invariant
            len == chars@.len(),
            chars@ == path@,
            seg_start <= i <= len,
            out@.map_values(|s: String| s@) + segments_from(chars@, seg_start as int, i as int) == segments(path@),
        decreases len - i,
    {
        if chars[i] != '/' {
            i = i + 1;
            continue;
        }
        if i == seg_start {
            seg_start = i + 1;
            i = i + 1;
            continue;
        }
        let seg = string_of(&chars, seg_start, i);
        let ghost before = out@;
        out.push(seg);
        proof {
            assert(out@.map_values(|s: String| s@) =~= before.map_values(|s: String| s@) + seq![seg@]);
        }
        seg_start = i + 1;
        i = i + 1;
    }
    if seg_start < len {
        let seg = string_of(&chars, seg_start, len);
        let ghost before = out@;
        out.push(seg);
        proof {
            assert(out@.map_values(|s: String| s@) =~= before.map_values(|s: String| s@) + seq![seg@]);
            assert(segments_from(chars@, len + 1, len + 1) =~= Seq::<Seq<char>>::empty());
            assert(out@.map_values(|s: String| s@) =~= segments(path@));
        }
    } else {
        proof {
            assert(segments_from(chars@, len + 1, len + 1) =~= Seq::<Seq<char>>::empty());
            assert(out@.map_values(|s: String| s@) =~= segments(path@));
        }
    }
    out
}


/// The model of a tree under construction.
pub open spec fn state_model(nodes: Seq<TreeNode>, lists: Seq<Vec<u32>>) -> TreeModel {
    TreeModel {
        nodes: nodes.map_values(|n: TreeNode| node_model(n)),
        children: lists.map_values(|l: Vec<u32>| l@),
    }
}

/// The directory child of `cursor` named `name`, as [`dir_lookup`].
fn find_dir_child(nodes: &Vec<TreeNode>, lists: &Vec<Vec<u32>>, cursor: u32, name: &str) -> (r: Option<u32>)
    requires
        model_wf(state_model(nodes@, lists@)),
        cursor < nodes@.len(),
    ensures
        r == dir_lookup(state_model(nodes@, lists@), cursor, name@),
{
    let ghost m = state_model(nodes@, lists@);
    if !matches!(nodes[cursor as usize].kind, EntryKind::Dir) {
        assert(m.nodes[cursor as int].kind != EntryKind::Dir);
        return None;
    }
    let ch = &lists[cursor as usize];
    assert(ch@ == m.children[cursor as int]);
    let mut k: usize = 0;
    while k < ch.len()
        invariant
            m == state_model(nodes@, lists@),
            model_wf(m),
            cursor < nodes@.len(),
            ch@ == m.children[cursor as int],
            m.nodes[cursor as int].kind == EntryKind::Dir,
            k <= ch@.len(),
            first_dir_child(m, cursor, name@, 0) == first_dir_child(m, cursor, name@, k as int),
        decreases ch@.len() - k,
    {
        let c = ch[k];
        assert(cursor < c < m.nodes.len());
        let node = &nodes[c as usize];
        assert(m.nodes[c as int] == node_model(*node));
        if matches!(node.kind, EntryKind::Dir) && str_eq(node.name.as_str(), name) {
            assert(m.nodes[c as int].kind == EntryKind::Dir && m.nodes[c as int].name == name@);
            assert(first_dir_child(m, cursor, name@, k as int) == Some(c));
            return Some(c);
        }
        k = k + 1;
    }
    None
}

/// Appends `node` as the last child of `cursor`; returns its index.
fn add_child(nodes: &mut Vec<TreeNode>, lists: &mut Vec<Vec<u32>>, cursor: u32, node: TreeNode) -> (r: u32)
    requires
        model_wf(state_model(old(nodes)@, old(lists)@)),
        cursor < old(nodes)@.len(),
        old(nodes)@.len() < 0xffff_ffff,
    ensures
        r == old(nodes)@.len(),
        state_model(final(nodes)@, final(lists)@) == with_child(
            state_model(old(nodes)@, old(lists)@),
            cursor,
            node_model(node),
        ),
{
    let ghost m = state_model(nodes@, lists@);
    let new_idx = nodes.len() as u32;
    let ghost old_nodes = nodes@;
    let ghost old_lists = lists@;
    nodes.push(node);
    lists[cursor as usize].push(new_idx);
    lists.push(Vec::new());
    proof {
        let m2 = with_child(m, cursor, node_model(node));
        assert(nodes@.map_values(|n: TreeNode| node_model(n)) =~= m2.nodes);
        assert(lists@.map_values(|l: Vec<u32>| l@) =~= m2.children) by {
            assert forall|i: int| 0 <= i < lists@.len() implies #[trigger] lists@[i]@ == m2.children[i] by {
                if i < old_lists.len() && i != cursor as int {
                    assert(lists@[i] == old_lists[i]);
                }
            }
        }
    }
    new_idx
}

fn clone_text(o: &Option<String>) -> (r: Option<String>)
    ensures
        opt_text(r) == opt_text(*o),
{
    match o {
        Some(s) => Some(s.clone()),
        None => None,
    }
}

fn dir_tree_node(name: &String, parent: u32) -> (r: TreeNode)
    ensures
        node_model(r) == dir_node(name@, parent),
{
    TreeNode {
        name: name.clone(),
        kind: EntryKind::Dir,
        parent: Some(parent),
        children_start: 0,
        children_count: 0,
        logical_size: 0,
        allocated_size: None,
        symlink_target: None,
        value_logical: 0,
        value_allocated: None,
        item_count: 0,
    }
}

fn leaf_tree_node(name: &String, parent: u32, entry: &NamespaceEntry) -> (r: TreeNode)
    ensures
        node_model(r) == leaf_node(name@, parent, *entry),
{
    TreeNode {
        name: name.clone(),
        kind: entry.entry_kind,
        parent: Some(parent),
        children_start: 0,
        children_count: 0,
        logical_size: entry.logical_size,
        allocated_size: entry.allocated_size,
        symlink_target: clone_text(&entry.symlink_target),
        value_logical: entry.logical_size,
        value_allocated: entry.allocated_size,
        item_count: 1,
    }
}

proof fn lemma_place_step(m: TreeModel, cursor: u32, segs: Seq<Seq<char>>, e: NamespaceEntry)
    requires
        segs.len() > 1,
    ensures
        place(m, cursor, segs, e) == match dir_lookup(m, cursor, segs[0]) {
            Some(c) => place(m, c, segs.drop_first(), e),
            None => place(with_child(m, cursor, dir_node(segs[0], cursor)), m.nodes.len() as u32, segs.drop_first(), e),
        },
{
}

/// Places entry `entry` into the tree under construction.
fn place_entry(nodes: &mut Vec<TreeNode>, lists: &mut Vec<Vec<u32>>, entry: &NamespaceEntry)
    requires
        model_wf(state_model(old(nodes)@, old(lists)@)),
        place(state_model(old(nodes)@, old(lists)@), 0, segments(entry.path@), *entry) is Some,
        old(nodes)@.len() + segments(entry.path@).len() < 0xffff_ffff,
    ensures
        place(state_model(old(nodes)@, old(lists)@), 0, segments(entry.path@), *entry) == Some(
            state_model(final(nodes)@, final(lists)@),
        ),
{
    let ghost m0 = state_model(nodes@, lists@);
    let segs = path_segments(entry.path.as_str());
    let ghost sv = segs@.map_values(|s: String| s@);
    let ghost target = place(m0, 0, sv, *entry);
    let n = segs.len();
    let mut cursor: u32 = 0;
    let mut j: usize = 0;
    assert(sv.subrange(0, n as int) =~= sv);
    while j < n
        invariant
            n == segs@.len(),
            sv == segs@.map_values(|s: String| s@),
            j <= n,
            model_wf(state_model(nodes@, lists@)),
            cursor < nodes@.len(),
            state_model(nodes@, lists@).nodes[cursor as int].kind == EntryKind::Dir,
            nodes@.len() + (n - j) < 0xffff_ffff,
            target is Some,
            target == place(state_model(nodes@, lists@), cursor, sv.subrange(j as int, n as int), *entry),
        decreases n - j,
    {
        let ghost m = state_model(nodes@, lists@);
        let ghost rest = sv.subrange(j as int, n as int);
        assert(rest[0] == segs@[j as int]@);
        let seg = &segs[j];
        if j + 1 == n {
            assert(rest.len() == 1);
            if matches!(entry.entry_kind, EntryKind::Dir) {
                if !matches!(nodes[cursor as usize].kind, EntryKind::Dir) {
                    assert(false);
                }
                let found = find_dir_child(nodes, lists, cursor, seg.as_str());
                if found.is_none() {
                    let node = dir_tree_node(seg, cursor);
                    proof {
                        lemma_with_child_wf(m, cursor, node_model(node));
                    }
                    add_child(nodes, lists, cursor, node);
                }
            } else {
                let node = leaf_tree_node(seg, cursor, entry);
                proof {
                    lemma_with_child_wf(m, cursor, node_model(node));
                }
                add_child(nodes, lists, cursor, node);
            }
            assert(target == Some(state_model(nodes@, lists@)));
            j = j + 1;
            assert(sv.subrange(j as int, n as int) =~= Seq::<Seq<char>>::empty());
        } else {
            proof {
                lemma_place_step(m, cursor, rest, *entry);
                lemma_first_dir_child_range(m, cursor, rest[0], 0);
                assert(rest.drop_first() =~= sv.subrange(j + 1, n as int));
            }
            let found = find_dir_child(nodes, lists, cursor, seg.as_str());
            match found {
                Some(c) => {
                    cursor = c;
                },
                None => {
                    let node = dir_tree_node(seg, cursor);
                    proof {
                        lemma_with_child_wf(m, cursor, node_model(node));
                    }
                    let idx = add_child(nodes, lists, cursor, node);
                    cursor = idx;
                },
            }
            j = j + 1;
        }
    }
    proof {
        assert(sv == segments(entry.path@));
    }
}


// ---- totals ------------------------------------------------------------------- //

/// What a node contributes itself: nothing for a directory (its allocated
/// total starts at zero), its own sizes and one item otherwise.
pub open spec fn own_totals(n: NodeModel) -> (u64, Option<u64>, u64) {
    if n.kind == EntryKind::Dir {
        (0u64, Some(0u64), 0u64)
    } else {
        (n.logical, n.allocated, 1u64)
    }
}

/// `a` plus `b`, each count saturating; the allocated total is unknown
/// once either side's is.
pub open spec fn add_totals(a: (u64, Option<u64>, u64), b: (u64, Option<u64>, u64)) -> (u64, Option<u64>, u64) {
    (
        a.0.saturating_add(b.0),
        match (a.1, b.1) {
            (Some(x), Some(y)) => Some(x.saturating_add(y)),
            _ => None,
        },
        a.2.saturating_add(b.2),
    )
}

/// The totals of the subtree at node `i`: its own contribution plus the
/// totals of its children, in child order.
pub open spec fn totals(m: TreeModel, i: int) -> (u64, Option<u64>, u64)
    decreases m.nodes.len() - i, m.children[i].len() + 1,
{
    if i < 0 || i >= m.nodes.len() || i >= m.children.len() {
        (0u64, None, 0u64)
    } else {
        totals_from(m, i, own_totals(m.nodes[i]), 0)
    }
}

/// `acc` plus the totals of the children of `i` from position `k` on.
pub open spec fn totals_from(m: TreeModel, i: int, acc: (u64, Option<u64>, u64), k: int) -> (u64, Option<u64>, u64)
    decreases m.nodes.len() - i, m.children[i].len() - k,
{
    if i < 0 || i >= m.nodes.len() || i >= m.children.len() || k < 0 || k >= m.children[i].len() {
        acc
    } else {
        let c = m.children[i][k] as int;
        if i < c < m.nodes.len() {
            totals_from(m, i, add_totals(acc, totals(m, c)), k + 1)
        } else {
            totals_from(m, i, acc, k + 1)
        }
    }
}

/// The totals a built node carries.
pub open spec fn node_totals(n: TreeNode) -> (u64, Option<u64>, u64) {
    (n.value_logical, n.value_allocated, n.item_count)
}

/// `nodes` and `arena` lay out the model `m`: each node holds its model's
/// fields, and its children are its slice of the arena, which concatenates
/// the child lists in node order.
pub open spec fn layout_ok(nodes: Seq<TreeNode>, arena: Seq<u32>, m: TreeModel) -> bool {
    &&& nodes.len() == m.nodes.len()
    &&& arena == flat(m.children, m.children.len() as int)
    &&& forall|j: int| 0 <= j < nodes.len() ==> node_model(#[trigger] nodes[j]) == m.nodes[j]
    &&& forall|j: int|
        0 <= j < nodes.len() ==> (#[trigger] nodes[j]).children_start == flat(m.children, j).len()
            && nodes[j].children_count == m.children[j].len()
}

/// `t` is the tree of model `m` with every subtree total computed.
pub open spec fn tree_matches(t: Tree, m: TreeModel) -> bool {
    &&& layout_ok(t.nodes@, t.children_arena@, m)
    &&& forall|j: int| 0 <= j < t.nodes@.len() ==> node_totals(#[trigger] t.nodes@[j]) == totals(m, j)
}

impl Tree {
    /// The shape facts the lookups rely on: node 0 is the root, every other
    /// node has a smaller parent, and every child slice lies in the arena
    /// and names larger, existing nodes.
    pub open spec fn wf(&self) -> bool {
        let n = self.nodes@;
        let a = self.children_arena@;
        &&& n.len() >= 1
        &&& n.len() < 0xffff_ffff
        &&& n[0].parent is None
        &&& forall|i: int| 1 <= i < n.len() ==> ((#[trigger] n[i]).parent matches Some(p) && p < i)
        &&& forall|i: int| 0 <= i < n.len() ==> (#[trigger] n[i]).children_start + n[i].children_count <= a.len()
        &&& forall|i: int, k: int|
            0 <= i < n.len() && 0 <= k < n[i].children_count ==> i < #[trigger] a[n[i].children_start + k] < n.len()
    }

    /// The children of node `i`.
    pub open spec fn children_spec(&self, i: int) -> Seq<u32> {
        if 0 <= i < self.nodes@.len() {
            let n = self.nodes@[i];
            self.children_arena@.subrange(n.children_start as int, n.children_start + n.children_count)
        } else {
            Seq::empty()
        }
    }
}

proof fn lemma_layout_wf(nodes: Seq<TreeNode>, arena: Seq<u32>, m: TreeModel)
    requires
        model_wf(m),
        layout_ok(nodes, arena, m),
        m.nodes.len() < 0xffff_ffff,
    ensures
        forall|i: int| 1 <= i < nodes.len() ==> ((#[trigger] nodes[i]).parent matches Some(p) && p < i),
        nodes[0].parent is None,
        forall|i: int| 0 <= i < nodes.len() ==> (#[trigger] nodes[i]).children_start + nodes[i].children_count <= arena.len(),
        forall|i: int, k: int|
            0 <= i < nodes.len() && 0 <= k < nodes[i].children_count ==> #[trigger] arena[nodes[i].children_start + k]
                == m.children[i][k],
{
    assert(node_model(nodes[0]) == m.nodes[0]);
    assert forall|i: int| 1 <= i < nodes.len() implies ((#[trigger] nodes[i]).parent matches Some(p) && p < i) by {
        assert(node_model(nodes[i]) == m.nodes[i]);
    }
    assert forall|i: int| 0 <= i < nodes.len() implies (#[trigger] nodes[i]).children_start + nodes[i].children_count
        <= arena.len() by {
        lemma_flat_slot(m.children, i, m.children.len() as int);
    }
    assert forall|i: int, k: int|
        0 <= i < nodes.len() && 0 <= k < nodes[i].children_count implies #[trigger] arena[nodes[i].children_start + k]
        == m.children[i][k] by {
        lemma_flat_slot(m.children, i, m.children.len() as int);
    }
}


/// Lays the child lists out in one arena and records each node's slice.
fn flatten(nodes: &mut Vec<TreeNode>, lists: &Vec<Vec<u32>>, Ghost(m): Ghost<TreeModel>) -> (arena: Vec<u32>)
    requires
        model_wf(m),
        m == state_model(old(nodes)@, lists@),
        m.nodes.len() < 0xffff_ffff,
    ensures
        layout_ok(final(nodes)@, arena@, m),
{
    let mut arena: Vec<u32> = Vec::new();
    let n = lists.len();
    let mut i: usize = 0;
    while i < n
        invariant
            model_wf(m),
            m == state_model(old(nodes)@, lists@),
            m.nodes.len() < 0xffff_ffff,
            n == lists@.len(),
            n == nodes@.len(),
            i <= n,
            arena@ == flat(m.children, i as int),
            forall|j: int| 0 <= j < nodes@.len() ==> node_model(#[trigger] nodes@[j]) == m.nodes[j],
            forall|j: int|
                0 <= j < i ==> (#[trigger] nodes@[j]).children_start == flat(m.children, j).len()
                    && nodes@[j].children_count == m.children[j].len(),
        decreases n - i,
    {
        proof {
            lemma_flat_slot(m.children, i as int, n as int);
        }
        let list = &lists[i];
        assert(list@ == m.children[i as int]);
        let ghost before = nodes@;
        nodes[i].children_start = arena.len() as u32;
        nodes[i].children_count = list.len() as u32;
        proof {
            assert forall|j: int| 0 <= j < nodes@.len() implies node_model(#[trigger] nodes@[j]) == m.nodes[j] by {
                if j != i {
                    assert(nodes@[j] == before[j]);
                } else {
                    assert(node_model(nodes@[j]) == node_model(before[j]));
                }
            }
        }
        let mut k: usize = 0;
        while k < list.len()
            invariant
                k <= list@.len(),
                arena@ == flat(m.children, i as int) + list@.subrange(0, k as int),
            decreases list@.len() - k,
        {
            arena.push(list[k]);
            k = k + 1;
            assert(arena@ =~= flat(m.children, i as int) + list@.subrange(0, k as int));
        }
        assert(list@.subrange(0, list@.len() as int) =~= list@);
        i = i + 1;
    }
    arena
}

proof fn lemma_totals_step(m: TreeModel, i: int, acc: (u64, Option<u64>, u64), k: int)
    requires
        0 <= i < m.nodes.len(),
        m.children.len() == m.nodes.len(),
        0 <= k < m.children[i].len(),
        i < m.children[i][k] < m.nodes.len(),
    ensures
        totals_from(m, i, acc, k) == totals_from(m, i, add_totals(acc, totals(m, m.children[i][k] as int)), k + 1),
{
}

/// Computes every node's subtree totals, children before parents.
fn finalize(nodes: &mut Vec<TreeNode>, arena: &Vec<u32>, Ghost(m): Ghost<TreeModel>)
    requires
        model_wf(m),
        layout_ok(old(nodes)@, arena@, m),
        m.nodes.len() < 0xffff_ffff,
    ensures
        layout_ok(final(nodes)@, arena@, m),
        forall|j: int| 0 <= j < final(nodes)@.len() ==> node_totals(#[trigger] final(nodes)@[j]) == totals(m, j),
{
    proof {
        lemma_layout_wf(nodes@, arena@, m);
    }
    let n = nodes.len();
    let mut idx: usize = n;
    while idx > 0
        invariant
            model_wf(m),
            m.nodes.len() < 0xffff_ffff,
            n == nodes@.len(),
            idx <= n,
            layout_ok(nodes@, arena@, m),
            forall|i: int, k: int|
                0 <= i < nodes@.len() && 0 <= k < nodes@[i].children_count ==> #[trigger] arena@[nodes@[i].children_start + k]
                    == m.children[i][k],
            forall|i: int| 0 <= i < nodes@.len() ==> (#[trigger] nodes@[i]).children_start + nodes@[i].children_count <= arena@.len(),
            forall|j: int| idx <= j < n ==> node_totals(#[trigger] nodes@[j]) == totals(m, j),
        decreases idx,
    {
        idx = idx - 1;
        let ghost before = nodes@;
        let is_dir = matches!(nodes[idx].kind, EntryKind::Dir);
        assert(node_model(nodes@[idx as int]) == m.nodes[idx as int]);
        let mut sum_logical: u64 = if is_dir { 0 } else { nodes[idx].logical_size };
        let mut sum_allocated: Option<u64> = if is_dir { Some(0) } else { nodes[idx].allocated_size };
        let mut sum_items: u64 = if is_dir { 0 } else { 1 };
        let start = nodes[idx].children_start as usize;
        let count = nodes[idx].children_count as usize;
        assert((sum_logical, sum_allocated, sum_items) == own_totals(m.nodes[idx as int]));
        let mut k: usize = 0;
        while k < count
            invariant
                model_wf(m),
                n == nodes@.len(),
                idx < n,
                nodes@ == before,
                layout_ok(nodes@, arena@, m),
                start == nodes@[idx as int].children_start,
                count == nodes@[idx as int].children_count,
                count == m.children[idx as int].len(),
                start + count <= arena@.len(),
                forall|kk: int| 0 <= kk < count ==> #[trigger] arena@[start + kk] == m.children[idx as int][kk],
                forall|j: int| idx < j < n ==> node_totals(#[trigger] nodes@[j]) == totals(m, j),
                k <= count,
                totals(m, idx as int) == totals_from(m, idx as int, (sum_logical, sum_allocated, sum_items), k as int),
            decreases count - k,
        {
            let child = arena[start + k] as usize;
            assert(child == m.children[idx as int][k as int]);
            proof {
                lemma_totals_step(m, idx as int, (sum_logical, sum_allocated, sum_items), k as int);
            }
            let c = &nodes[child];
            assert(node_totals(*c) == totals(m, child as int));
            sum_logical = sum_logical.saturating_add(c.value_logical);
            sum_allocated = match (sum_allocated, c.value_allocated) {
                (Some(s), Some(cv)) => Some(s.saturating_add(cv)),
                _ => None,
            };
            sum_items = sum_items.saturating_add(c.item_count);
            k = k + 1;
        }
        nodes[idx].value_logical = sum_logical;
        nodes[idx].value_allocated = sum_allocated;
        nodes[idx].item_count = sum_items;
        proof {
            assert forall|j: int| 0 <= j < nodes@.len() implies node_model(#[trigger] nodes@[j]) == m.nodes[j] by {
                if j != idx {
                    assert(nodes@[j] == before[j]);
                } else {
                    assert(node_model(nodes@[j]) == node_model(before[j]));
                }
            }
            assert forall|j: int| 0 <= j < nodes@.len() implies (#[trigger] nodes@[j]).children_start == flat(
                m.children,
                j,
            ).len() && nodes@[j].children_count == m.children[j].len() by {
                assert(nodes@[j].children_start == before[j].children_start);
            }
            assert forall|j: int| idx <= j < n implies node_totals(#[trigger] nodes@[j]) == totals(m, j) by {
                if j != idx {
                    assert(nodes@[j] == before[j]);
                }
            }
        }
    }
}

proof fn lemma_build_prefix(entries: Seq<NamespaceEntry>, k: int, n: int)
    requires
        0 <= k <= n,
        build_model(entries, n) is Some,
    ensures
        build_model(entries, k) is Some,
    decreases n - k,
{
    if k < n {
        lemma_build_prefix(entries, k + 1, n);
    }
}

proof fn lemma_segment_total_mono(entries: Seq<NamespaceEntry>, k: int, n: int)
    requires
        0 <= k <= n,
    ensures
        segment_total(entries, k) <= segment_total(entries, n),
    decreases n - k,
{
    if k < n {
        lemma_segment_total_mono(entries, k, n - 1);
    }
}

/// Totals only grow as children are added, and an unknown allocated total
/// stays unknown.
proof fn lemma_totals_from_grows(m: TreeModel, i: int, acc: (u64, Option<u64>, u64), k: int)
    requires
        model_wf(m),
        0 <= i < m.nodes.len(),
        0 <= k,
    ensures
        totals_from(m, i, acc, k).0 >= acc.0,
        totals_from(m, i, acc, k).2 >= acc.2,
        acc.1 is None ==> totals_from(m, i, acc, k).1 is None,
    decreases m.children[i].len() - k,
{
    if k < m.children[i].len() {
        let c = m.children[i][k] as int;
        lemma_totals_from_grows(m, i, add_totals(acc, totals(m, c)), k + 1);
    }
}

/// The totals from position `k0` on cover the subtree of the child at any
/// later position `k`.
proof fn lemma_totals_from_covers(m: TreeModel, i: int, acc: (u64, Option<u64>, u64), k0: int, k: int)
    requires
        model_wf(m),
        0 <= i < m.nodes.len(),
        0 <= k0 <= k < m.children[i].len(),
    ensures
        totals_from(m, i, acc, k0).0 >= totals(m, m.children[i][k] as int).0,
        totals_from(m, i, acc, k0).2 >= totals(m, m.children[i][k] as int).2,
        totals(m, m.children[i][k] as int).1 is None ==> totals_from(m, i, acc, k0).1 is None,
    decreases k - k0,
{
    let c0 = m.children[i][k0] as int;
    let next = add_totals(acc, totals(m, c0));
    lemma_totals_step(m, i, acc, k0);
    if k0 == k {
        lemma_totals_from_grows(m, i, next, k0 + 1);
    } else {
        lemma_totals_from_covers(m, i, next, k0 + 1, k);
    }
}

/// Every model on the way to a placed set of entries is well formed.
proof fn lemma_build_model_wf(entries: Seq<NamespaceEntry>, k: int)
    requires
        0 <= k,
        build_model(entries, k) is Some,
        1 + segment_total(entries, k) < 0xffff_ffff,
    ensures
        model_wf(build_model(entries, k)->Some_0),
        build_model(entries, k)->Some_0.nodes.len() <= 1 + segment_total(entries, k),
    decreases k,
{
    if k <= 0 {
        let m = root_model();
        assert(flat(m.children, 0) =~= Seq::<u32>::empty());
        assert(flat(m.children, 1) =~= flat(m.children, 0) + m.children[0]);
    } else {
        let prev = build_model(entries, k - 1)->Some_0;
        assert(segments(entries[k - 1].path@).len() >= 0);
        lemma_build_model_wf(entries, k - 1);
        lemma_place_wf(prev, 0, segments(entries[k - 1].path@), entries[k - 1]);
    }
}

/// The shape of a built tree: node 0 is the root, a parentless directory
/// with an empty name; the arena holds one entry for every other node; and
/// each child of node `j` comes after `j`, has `j` as its parent, and `j`
/// is a directory.
pub proof fn lemma_built_tree_shape(entries: Seq<NamespaceEntry>, t: Tree)
    requires
        build_model(entries, entries.len() as int) is Some,
        1 + segment_total(entries, entries.len() as int) < 0xffff_ffff,
        tree_matches(t, build_model(entries, entries.len() as int)->Some_0),
    ensures
        t.nodes@.len() >= 1,
        t.nodes@[0].name@ == Seq::<char>::empty(),
        t.nodes@[0].kind == EntryKind::Dir,
        t.nodes@[0].parent is None,
        t.children_arena@.len() + 1 == t.nodes@.len(),
        forall|j: int, k: int|
            0 <= j < t.nodes@.len() && 0 <= k < t.nodes@[j].children_count ==> {
                let c = #[trigger] t.children_arena@[t.nodes@[j].children_start + k] as int;
                &&& j < c < t.nodes@.len()
                &&& t.nodes@[c].parent == Some(j as u32)
                &&& t.nodes@[j].kind == EntryKind::Dir
            },
{
    let m = build_model(entries, entries.len() as int)->Some_0;
    lemma_build_model_wf(entries, entries.len() as int);
    lemma_layout_wf(t.nodes@, t.children_arena@, m);
    assert(node_model(t.nodes@[0]) == m.nodes[0]);
    assert forall|j: int, k: int|
        0 <= j < t.nodes@.len() && 0 <= k < t.nodes@[j].children_count implies {
            let c = #[trigger] t.children_arena@[t.nodes@[j].children_start + k] as int;
            &&& j < c < t.nodes@.len()
            &&& t.nodes@[c].parent == Some(j as u32)
            &&& t.nodes@[j].kind == EntryKind::Dir
        } by {
        let c = m.children[j][k] as int;
        assert(t.children_arena@[t.nodes@[j].children_start + k] == m.children[j][k]);
        assert(node_model(t.nodes@[c]) == m.nodes[c]);
        assert(node_model(t.nodes@[j]) == m.nodes[j]);
    }
}

/// In a built tree a node's subtree totals cover each child's: its logical
/// bytes and item count are at least the child's, and its allocated total
/// is unknown whenever the child's is.
pub proof fn lemma_totals_cover_children(entries: Seq<NamespaceEntry>, t: Tree, j: int, k: int)
    requires
        build_model(entries, entries.len() as int) is Some,
        1 + segment_total(entries, entries.len() as int) < 0xffff_ffff,
        tree_matches(t, build_model(entries, entries.len() as int)->Some_0),
        0 <= j < t.nodes@.len(),
        0 <= k < t.nodes@[j].children_count,
    ensures
        ({
            let c = t.children_arena@[t.nodes@[j].children_start + k] as int;
            &&& j < c < t.nodes@.len()
            &&& t.nodes@[j].value_logical >= t.nodes@[c].value_logical
            &&& t.nodes@[j].item_count >= t.nodes@[c].item_count
            &&& t.nodes@[c].value_allocated is None ==> t.nodes@[j].value_allocated is None
        }),
{
    let m = build_model(entries, entries.len() as int)->Some_0;
    lemma_build_model_wf(entries, entries.len() as int);
    lemma_layout_wf(t.nodes@, t.children_arena@, m);
    let c = m.children[j][k] as int;
    assert(t.children_arena@[t.nodes@[j].children_start + k] == m.children[j][k]);
    assert(node_totals(t.nodes@[j]) == totals(m, j));
    assert(node_totals(t.nodes@[c]) == totals(m, c));
    lemma_totals_from_covers(m, j, own_totals(m.nodes[j]), 0, k);
}

impl Tree {
    /// Builds the tree of `entries`.
    ///
    /// Requires that no directory entry's last segment lands under a node
    /// that is not a directory (the tree has no place for it), and that the
    /// nodes fit `u32` indices.
    pub fn build(entries: &[NamespaceEntry]) -> (t: Tree)
        requires
            build_model(entries@, entries@.len() as int) is Some,
            1 + segment_total(entries@, entries@.len() as int) < 0xffff_ffff,
        ensures
            t.wf(),
            tree_matches(t, build_model(entries@, entries@.len() as int)->Some_0),
    {
        let mut nodes: Vec<TreeNode> = Vec::new();
        let mut lists: Vec<Vec<u32>> = Vec::new();
        nodes.push(
            TreeNode {
                name: String::new(),
                kind: EntryKind::Dir,
                parent: None,
                children_start: 0,
                children_count: 0,
                logical_size: 0,
                allocated_size: None,
                symlink_target: None,
                value_logical: 0,
                value_allocated: None,
                item_count: 0,
            },
        );
        lists.push(Vec::new());
        proof {
            let m = state_model(nodes@, lists@);
            assert(m.nodes =~= root_model().nodes);
            assert(m.children =~= root_model().children);
            assert(m.children[0] =~= Seq::<u32>::empty());
            assert(flat(m.children, 0) =~= Seq::<u32>::empty());
            assert(flat(m.children, 1) =~= flat(m.children, 0) + m.children[0]);
            assert(flat(m.children, 1) =~= Seq::<u32>::empty());
        }
        let ghost total = entries@.len() as int;
        let mut e: usize = 0;
        while e < entries.len()
            invariant
                total == entries@.len(),
                e <= entries@.len(),
                build_model(entries@, total) is Some,
                1 + segment_total(entries@, total) < 0xffff_ffff,
                build_model(entries@, e as int) == Some(state_model(nodes@, lists@)),
                model_wf(state_model(nodes@, lists@)),
                nodes@.len() <= 1 + segment_total(entries@, e as int),
            decreases entries@.len() - e,
        {
            proof {
                lemma_build_prefix(entries@, e + 1, total);
                lemma_segment_total_mono(entries@, e + 1, total);
                lemma_place_wf(state_model(nodes@, lists@), 0, segments(entries@[e as int].path@), entries@[e as int]);
            }
            place_entry(&mut nodes, &mut lists, &entries[e]);
            e = e + 1;
        }
        let ghost m = state_model(nodes@, lists@);
        let mut arena = flatten(&mut nodes, &lists, Ghost(m));
        finalize(&mut nodes, &arena, Ghost(m));
        proof {
            lemma_layout_wf(nodes@, arena@, m);
            assert forall|i: int, k: int|
                0 <= i < nodes@.len() && 0 <= k < nodes@[i].children_count implies i < #[trigger] arena@[nodes@[i].children_start + k]
                < nodes@.len() by {
                assert(m.children[i][k] == arena@[nodes@[i].children_start + k]);
            }
        }
        Tree { nodes, children_arena: arena }
    }
}


// ---- lookups ------------------------------------------------------------------ //

/// The index of the first child of `cursor`, from position `k` on, named
/// `name` (of any kind).
pub open spec fn child_named(t: Tree, cursor: int, name: Seq<char>, k: int) -> Option<u32>
    decreases t.children_spec(cursor).len() - k,
{
    let ch = t.children_spec(cursor);
    if k < 0 || k >= ch.len() {
        None
    } else if t.nodes@[ch[k] as int].name@ == name {
        Some(ch[k])
    } else {
        child_named(t, cursor, name, k + 1)
    }
}

/// The node reached from `cursor` by following the segments `segs` by
/// name, or `NODE_INVALID` when one is missing.
pub open spec fn follow(t: Tree, cursor: u32, segs: Seq<Seq<char>>) -> u32
    decreases segs.len(),
{
    if segs.len() == 0 {
        cursor
    } else {
        match child_named(t, cursor as int, segs[0], 0) {
            Some(c) => follow(t, c, segs.drop_first()),
            None => NODE_INVALID,
        }
    }
}

/// The node at `path`: the root for `""` and `"/"`, else the node reached
/// by its segments.
pub open spec fn node_at(t: Tree, path: Seq<char>) -> u32 {
    if path == "/"@ || path.len() == 0 {
        0
    } else {
        follow(t, 0, segments(path))
    }
}

/// `segs` appended to the path `pre` of a node, each after a `/` except
/// directly below the root (`at_root`).
pub open spec fn rejoined(pre: Seq<char>, at_root: bool, segs: Seq<Seq<char>>) -> Seq<char>
    decreases segs.len(),
{
    if segs.len() == 0 {
        pre
    } else {
        rejoined(if at_root { segs[0] } else { pre + "/"@ + segs[0] }, false, segs.drop_first())
    }
}

/// Every child of every node names that node as its parent and comes
/// after it.
pub open spec fn children_know_parent(t: Tree) -> bool {
    forall|j: int, k: int|
        0 <= j < t.nodes@.len() && 0 <= k < t.children_spec(j).len() ==> {
            let c = #[trigger] t.children_spec(j)[k] as int;
            j < c < t.nodes@.len() && t.nodes@[c].parent == Some(j as u32)
        }
}

proof fn lemma_child_named_is_child(t: Tree, cursor: int, name: Seq<char>, k: int)
    ensures
        child_named(t, cursor, name, k) matches Some(c) ==> exists|q: int|
            0 <= q < t.children_spec(cursor).len() && #[trigger] t.children_spec(cursor)[q] == c && t.nodes@[c as int].name@
                == name,
    decreases t.children_spec(cursor).len() - k,
{
    let ch = t.children_spec(cursor);
    if 0 <= k < ch.len() {
        lemma_child_named_is_child(t, cursor, name, k + 1);
        if t.nodes@[ch[k] as int].name@ == name {
            assert(ch[k] == ch[k]);
        }
    }
}

proof fn lemma_follow_path(t: Tree, cursor: u32, segs: Seq<Seq<char>>)
    requires
        t.wf(),
        children_know_parent(t),
        cursor < t.nodes@.len(),
        follow(t, cursor, segs) != NODE_INVALID,
    ensures
        path_of(t, follow(t, cursor, segs) as int) == rejoined(path_of(t, cursor as int), cursor == 0, segs),
    decreases segs.len(),
{
    if segs.len() > 0 {
        lemma_child_named_is_child(t, cursor as int, segs[0], 0);
        let c = child_named(t, cursor as int, segs[0], 0)->Some_0;
        let q = choose|q: int|
            0 <= q < t.children_spec(cursor as int).len() && #[trigger] t.children_spec(cursor as int)[q] == c
                && t.nodes@[c as int].name@ == segs[0];
        assert(t.children_spec(cursor as int)[q] == c);
        assert(cursor < c < t.nodes@.len() && t.nodes@[c as int].parent == Some(cursor));
        lemma_follow_path(t, c, segs.drop_first());
    }
}

/// A path without a leading or trailing `/` and without two `/` in a row.
pub open spec fn clean_path(p: Seq<char>) -> bool {
    &&& p.len() > 0
    &&& p[0] != '/'
    &&& p[p.len() - 1] != '/'
    &&& forall|k: int| 0 <= k < p.len() - 1 && #[trigger] p[k] == '/' ==> p[k + 1] != '/'
}

proof fn lemma_rejoin_from(p: Seq<char>, start: int, i: int, pre: Seq<char>)
    requires
        clean_path(p),
        0 <= start <= i <= p.len(),
        start < p.len(),
        forall|k: int| start <= k < i ==> p[k] != '/',
        start == 0 ==> pre == Seq::<char>::empty(),
        start > 0 ==> pre == p.subrange(0, start - 1) && p[start - 1] == '/',
    ensures
        rejoined(pre, start == 0, segments_from(p, start, i)) == p,
    decreases p.len() + 1 - i,
{
    if start > 0 {
        assert(p[start - 1] == '/');
        assert(p[start] != '/');
    }
    if i < p.len() && p[i] != '/' {
        lemma_rejoin_from(p, start, i + 1, pre);
    } else {
        assert(i != start);
        let seg = p.subrange(start, i);
        let rest = segments_from(p, i + 1, i + 1);
        let all = seq![seg] + rest;
        assert(segments_from(p, start, i) == all);
        assert(all[0] == seg);
        assert(all.drop_first() =~= rest);
        let next = if start == 0 { seg } else { pre + "/"@ + seg };
        assert(next =~= p.subrange(0, i)) by {
            if start > 0 {
                reveal_strlit("/");
                assert(pre + "/"@ + seg =~= p.subrange(0, i));
            }
        }
        if i == p.len() {
            assert(rest == Seq::<Seq<char>>::empty());
            assert(p.subrange(0, i) =~= p);
        } else {
            assert(p[i] == '/');
            assert(i < p.len() - 1);
            lemma_rejoin_from(p, i + 1, i + 1, next);
        }
        assert(rejoined(pre, start == 0, all) == rejoined(next, false, rest));
    }
}

/// Rejoining the segments of a clean path by `/` gives the path back.
pub proof fn lemma_rejoined_segments(p: Seq<char>)
    requires
        clean_path(p),
    ensures
        rejoined(Seq::empty(), true, segments(p)) == p,
{
    lemma_rejoin_from(p, 0, 0, Seq::empty());
}

/// Looking a path up and writing the found node's path back gives the
/// path's segments rejoined by `/`: in a built tree, for any path that
/// names a node other than the root. For a clean path (no leading,
/// trailing or doubled `/`) that is the path itself.
pub proof fn lemma_path_round_trip(entries: Seq<NamespaceEntry>, t: Tree, p: Seq<char>)
    requires
        build_model(entries, entries.len() as int) is Some,
        1 + segment_total(entries, entries.len() as int) < 0xffff_ffff,
        tree_matches(t, build_model(entries, entries.len() as int)->Some_0),
        t.wf(),
        p.len() > 0,
        p != "/"@,
        node_at(t, p) != NODE_INVALID,
    ensures
        path_of(t, node_at(t, p) as int) == rejoined(Seq::empty(), true, segments(p)),
        clean_path(p) ==> path_of(t, node_at(t, p) as int) == p,
{
    if clean_path(p) {
        lemma_rejoined_segments(p);
    }
    lemma_built_tree_shape(entries, t);
    assert forall|j: int, k: int| 0 <= j < t.nodes@.len() && 0 <= k < t.children_spec(j).len() implies {
        let c = #[trigger] t.children_spec(j)[k] as int;
        j < c < t.nodes@.len() && t.nodes@[c].parent == Some(j as u32)
    } by {
        assert(t.children_spec(j)[k] == t.children_arena@[t.nodes@[j].children_start + k]);
    }
    lemma_follow_path(t, 0, segments(p));
}

/// The path of node `i`: the names from below the root down to it, joined
/// by `/`; empty for the root and for indices out of range.
pub open spec fn path_of(t: Tree, i: int) -> Seq<char>
    decreases i,
{
    if i <= 0 || i >= t.nodes@.len() {
        Seq::empty()
    } else {
        match t.nodes@[i].parent {
            Some(p) => if 0 < p < i {
                path_of(t, p as int) + "/"@ + t.nodes@[i].name@
            } else {
                t.nodes@[i].name@
            },
            None => t.nodes@[i].name@,
        }
    }
}

impl Tree {
    /// The children of node `idx`; empty when there is no such node.
    pub fn children_of(&self, idx: u32) -> (r: &[u32])
        requires
            self.wf(),
        ensures
            r@ == self.children_spec(idx as int),
    {
        if idx as usize >= self.nodes.len() {
            return vstd::slice::slice_subrange(self.children_arena.as_slice(), 0, 0);
        }
        let node = &self.nodes[idx as usize];
        let alen = self.children_arena.len();
        assert(node.children_start + node.children_count <= alen);
        let start = node.children_start as usize;
        let end = start + node.children_count as usize;
        vstd::slice::slice_subrange(self.children_arena.as_slice(), start, end)
    }

    fn find_child_named(&self, cursor: u32, name: &str) -> (r: Option<u32>)
        requires
            self.wf(),
            cursor < self.nodes@.len(),
        ensures
            r == child_named(*self, cursor as int, name@, 0),
            r matches Some(c) ==> cursor < c < self.nodes@.len(),
    {
        let ch = self.children_of(cursor);
        let mut k: usize = 0;
        while k < ch.len()
            invariant
                self.wf(),
                cursor < self.nodes@.len(),
                ch@ == self.children_spec(cursor as int),
                k <= ch@.len(),
                child_named(*self, cursor as int, name@, 0) == child_named(*self, cursor as int, name@, k as int),
            decreases ch@.len() - k,
        {
            let c = ch[k];
            let ghost n = self.nodes@[cursor as int];
            assert(c == self.children_arena@[n.children_start + k]);
            assert(cursor < c < self.nodes@.len());
            if str_eq(self.nodes[c as usize].name.as_str(), name) {
                return Some(c);
            }
            k = k + 1;
        }
        None
    }

    /// The node at `path` (see [`node_at`]), or `NODE_INVALID`.
    pub fn node_index_for_path(&self, path: &str) -> (r: u32)
        requires
            self.wf(),
        ensures
            r == node_at(*self, path@),
    {
        if path.unicode_len() == 0 || str_eq(path, "/") {
            return 0;
        }
        let segs = path_segments(path);
        let ghost sv = segs@.map_values(|s: String| s@);
        let n = segs.len();
        let mut cursor: u32 = 0;
        let mut j: usize = 0;
        assert(sv.subrange(0, n as int) =~= sv);
        while j < n
            invariant
                self.wf(),
                n == segs@.len(),
                sv == segs@.map_values(|s: String| s@),
                sv == segments(path@),
                path@.len() != 0,
                path@ != "/"@,
                j <= n,
                cursor < self.nodes@.len(),
                follow(*self, 0, sv) == follow(*self, cursor, sv.subrange(j as int, n as int)),
            decreases n - j,
        {
            let ghost rest = sv.subrange(j as int, n as int);
            assert(rest[0] == segs@[j as int]@);
            assert(rest.drop_first() =~= sv.subrange(j + 1, n as int));
            match self.find_child_named(cursor, segs[j].as_str()) {
                Some(c) => {
                    cursor = c;
                },
                None => {
                    assert(follow(*self, cursor, rest) == NODE_INVALID);
                    return NODE_INVALID;
                },
            }
            j = j + 1;
        }
        assert(sv.subrange(n as int, n as int) =~= Seq::<Seq<char>>::empty());
        cursor
    }

    /// The path of node `idx` (see [`path_of`]).
    pub fn compute_path(&self, idx: u32) -> (r: String)
        requires
            self.wf(),
        ensures
            r@ == path_of(*self, idx as int),
    {
        let mut out = String::new();
        if (idx as usize) < self.nodes.len() && idx != 0 {
            self.write_path_into(idx, &mut out);
        }
        out
    }

    fn write_path_into(&self, idx: u32, out: &mut String)
        requires
            self.wf(),
            0 < idx < self.nodes@.len(),
        ensures
            final(out)@ == old(out)@ + path_of(*self, idx as int),
        decreases idx,
    {
        let node = &self.nodes[idx as usize];
        let ghost before = out@;
        match node.parent {
            Some(p) => {
                if p != 0 {
                    self.write_path_into(p, out);
                    out.append("/");
                }
            },
            None => {},
        }
        out.append(node.name.as_str());
        proof {
            assert(out@ =~= before + path_of(*self, idx as int));
        }
    }
}

} // verus!
