//! The workspace tree as the sidebar uses it: visible rows, expansion state
//! and incremental insertion of scanned paths.

use vstd::prelude::*;
use crate::pathname::{
    is_markdown_file, join, relative_components, spec_is_markdown, spec_join,
    spec_relative_components, views,
};
use crate::state::{
    FileTreeNode, NodeView, forest_view, lemma_forest_view, lemma_node_order_antisymmetric,
    lemma_node_order_transitive,
    node_at, node_order, node_precedes, node_view,
};
use crate::text::push_char;

verus! {

/// The tree after toggling the directory at `p`, searched a whole level at
/// a time: the first directory of `f` with path `p`; else the one found
/// below the directories of `f`, tried from the last to the first. The
/// flag says whether one was found.
pub open spec fn toggle_tree(f: Seq<NodeView>, p: Seq<char>) -> (Seq<NodeView>, bool)
    decreases f, 1int, 0int,
{
    let k = find_node(f, 0, p, true);
    if 0 <= k < f.len() {
        (f.update(k, NodeView { expanded: !f[k].expanded, ..f[k] }), true)
    } else {
        toggle_below(f, f.len() - 1, p)
    }
}

/// The search below the directories `f[..=i]`, from `f[i]` back to `f[0]`.
pub open spec fn toggle_below(f: Seq<NodeView>, i: int, p: Seq<char>) -> (Seq<NodeView>, bool)
    decreases f, 0int, i + 1,
{
    if i < 0 || i >= f.len() {
        (f, false)
    } else if f[i].is_dir && toggle_tree(f[i].children, p).1 {
        (f.update(i, NodeView { children: toggle_tree(f[i].children, p).0, ..f[i] }), true)
    } else {
        toggle_below(f, i - 1, p)
    }
}

/// Levels that agree on every node's path and kind are searched alike.
pub proof fn lemma_find_node_same_keys(f: Seq<NodeView>, g: Seq<NodeView>, i: int, p: Seq<char>, dir_only: bool)
    requires
        f.len() == g.len(),
        forall|j: int| 0 <= j < f.len() ==> (#[trigger] g[j]).path == f[j].path && g[j].is_dir == f[j].is_dir,
    ensures
        find_node(g, i, p, dir_only) == find_node(f, i, p, dir_only),
    decreases f.len() - i,
{
    if 0 <= i < f.len() {
        lemma_find_node_same_keys(f, g, i + 1, p, dir_only);
    }
}

/// The search below changes no node after `i`, and no node's path or kind.
pub proof fn lemma_toggle_below_shape(f: Seq<NodeView>, i: int, p: Seq<char>)
    ensures
        toggle_below(f, i, p).0.len() == f.len(),
        forall|j: int| 0 <= j < f.len() ==> (#[trigger] toggle_below(f, i, p).0[j]).path == f[j].path
            && toggle_below(f, i, p).0[j].is_dir == f[j].is_dir,
        forall|j: int| i < j < f.len() ==> #[trigger] toggle_below(f, i, p).0[j] == f[j],
        !toggle_below(f, i, p).1 ==> toggle_below(f, i, p).0 == f,
    decreases i + 1,
{
    if 0 <= i < f.len() {
        if !(f[i].is_dir && toggle_tree(f[i].children, p).1) {
            lemma_toggle_below_shape(f, i - 1, p);
        }
    }
}

/// Toggling changes no node's path or kind, and nothing when no directory
/// is found.
pub proof fn lemma_toggle_tree_shape(f: Seq<NodeView>, p: Seq<char>)
    ensures
        toggle_tree(f, p).0.len() == f.len(),
        forall|j: int| 0 <= j < f.len() ==> (#[trigger] toggle_tree(f, p).0[j]).path == f[j].path
            && toggle_tree(f, p).0[j].is_dir == f[j].is_dir,
        !toggle_tree(f, p).1 ==> toggle_tree(f, p).0 == f,
{
    lemma_find_node(f, 0, p, true);
    lemma_toggle_below_shape(f, f.len() - 1, p);
}

/// Toggling the same directory twice restores the tree: for every forest
/// and path, toggling at `p` and then again at `p` gives back the forest,
/// and the second toggle finds a directory exactly when the first did.
pub proof fn law_toggle_twice(f: Seq<NodeView>, p: Seq<char>)
    ensures
        toggle_tree(toggle_tree(f, p).0, p) == (f, toggle_tree(f, p).1),
    decreases f, 1int, 0int,
{
    lemma_find_node(f, 0, p, true);
    let k = find_node(f, 0, p, true);
    let g = toggle_tree(f, p).0;
    lemma_toggle_tree_shape(f, p);
    lemma_find_node_same_keys(f, g, 0, p, true);
    if 0 <= k < f.len() {
        assert(g.update(k, NodeView { expanded: !g[k].expanded, ..g[k] }) =~= f);
    } else {
        law_toggle_below_twice(f, f.len() - 1, p);
    }
}

/// The search below, done twice from the same place, restores the level.
pub proof fn law_toggle_below_twice(f: Seq<NodeView>, i: int, p: Seq<char>)
    ensures
        toggle_below(toggle_below(f, i, p).0, i, p) == (f, toggle_below(f, i, p).1),
    decreases f, 0int, i + 1,
{
    if 0 <= i < f.len() {
        let n = f[i];
        if n.is_dir && toggle_tree(n.children, p).1 {
            let c = toggle_tree(n.children, p).0;
            law_toggle_twice(n.children, p);
            let g = toggle_below(f, i, p).0;
            assert(g[i] == NodeView { children: c, ..n });
            assert(g.update(i, NodeView { children: n.children, ..g[i] }) =~= f);
        } else {
            law_toggle_below_twice(f, i - 1, p);
            lemma_toggle_below_shape(f, i - 1, p);
            let g = toggle_below(f, i - 1, p).0;
            assert(g[i] == n);
        }
    }
}

fn toggle_from(nodes: &mut Vec<FileTreeNode>, path: &String) -> (r: bool)
    ensures
        forest_view(final(nodes)@) == toggle_tree(forest_view(old(nodes)@), path@).0,
        r == toggle_tree(forest_view(old(nodes)@), path@).1,
    decreases old(nodes)@,
{
    let ghost f = forest_view(nodes@);
    proof { lemma_forest_view(nodes@); }
    match find_node_index(nodes, path, true) {
        Some(k) => {
            let e = nodes[k].expanded;
            nodes[k].expanded = !e;
            proof {
                lemma_forest_view(nodes@);
                assert(forest_view(nodes@) =~= f.update(k as int, NodeView { expanded: !f[k as int].expanded, ..f[k as int] }));
            }
            return true;
        },
        None => {},
    }
    let mut i: usize = nodes.len();
    while i > 0
        invariant
            0 <= i <= nodes@.len(),
            nodes@.len() == old(nodes)@.len(),
            forall|j: int| 0 <= j < i ==> nodes@[j] == old(nodes)@[j],
            f == forest_view(old(nodes)@),
            forest_view(nodes@) == f,
            f.len() == nodes@.len(),
            forall|j: int| 0 <= j < nodes@.len() ==> #[trigger] f[j] == node_view(nodes@[j]),
            toggle_tree(f, path@) == toggle_below(f, i - 1, path@),
        decreases i,
    {
        i = i - 1;
        if nodes[i].is_dir {
            assert(decreases_to!(old(nodes)@ => old(nodes)@[i as int].children@));
            let found = toggle_from(&mut nodes[i].children, path);
            if found {
                proof {
                    lemma_forest_view(nodes@);
                    assert(forest_view(nodes@) =~= f.update(i as int, NodeView { children: toggle_tree(f[i as int].children, path@).0, ..f[i as int] }));
                }
                return true;
            }
            proof {
                lemma_toggle_tree_shape(f[i as int].children, path@);
                lemma_forest_view(nodes@);
                assert(forest_view(nodes@) =~= f);
            }
        }
    }
    false
}

/// Toggles the expansion of the directory at `path` (see `toggle_tree`).
/// Returns whether such a directory exists; nothing else changes.
pub fn toggle_expansion(nodes: &mut Vec<FileTreeNode>, path: &str) -> (r: bool)
    ensures
        forest_view(final(nodes)@) == toggle_tree(forest_view(old(nodes)@), path@).0,
        r == toggle_tree(forest_view(old(nodes)@), path@).1,
{
    let p = path.to_string();
    toggle_from(nodes, &p)
}

/// One row of the sidebar.
#[derive(Clone, Debug, PartialEq, Eq)]
pub struct TreeRow {
    pub path: String,
    pub name: String,
    pub depth: usize,
    pub is_dir: bool,
    pub expanded: bool,
    pub selected: bool,
}

pub ghost struct RowView {
    pub path: Seq<char>,
    pub name: Seq<char>,
    pub depth: nat,
    pub is_dir: bool,
    pub expanded: bool,
    pub selected: bool,
}

pub open spec fn row_view(r: TreeRow) -> RowView {
    RowView {
        path: r.path@,
        name: r.name@,
        depth: r.depth as nat,
        is_dir: r.is_dir,
        expanded: r.expanded,
        selected: r.selected,
    }
}

pub open spec fn row_views(rows: Seq<TreeRow>) -> Seq<RowView> {
    rows.map_values(|r: TreeRow| row_view(r))
}

/// `d + 1`, held at the largest `usize`.
pub open spec fn next_depth(d: nat) -> nat {
    if d < usize::MAX {
        d + 1
    } else {
        d
    }
}

/// The rows for `f[i..]` at `depth`: each node, then (for an expanded
/// directory) the rows of its children one level deeper. A file row is
/// selected when its path is `active`.
pub open spec fn rows_at(f: Seq<NodeView>, i: int, depth: nat, active: Option<Seq<char>>) -> Seq<RowView>
    decreases f, f.len() - i,
{
    if i < 0 || i >= f.len() {
        Seq::empty()
    } else {
        let n = f[i];
        seq![RowView {
            path: n.path,
            name: n.name,
            depth: depth,
            is_dir: n.is_dir,
            expanded: n.expanded,
            selected: !n.is_dir && active == Some(n.path),
        }] + (if n.is_dir && n.expanded {
            rows_at(n.children, 0, next_depth(depth), active)
        } else {
            Seq::empty()
        }) + rows_at(f, i + 1, depth, active)
    }
}

/// The row that shows node `n` at `depth`, with `active` the open file.
pub open spec fn row_of(n: NodeView, depth: nat, active: Option<Seq<char>>) -> RowView {
    RowView {
        path: n.path,
        name: n.name,
        depth,
        is_dir: n.is_dir,
        expanded: n.expanded,
        selected: !n.is_dir && active == Some(n.path),
    }
}

proof fn lemma_rows_later(f: Seq<NodeView>, i: int, k: int, depth: nat, active: Option<Seq<char>>, x: RowView)
    requires
        0 <= i <= k,
        rows_at(f, k, depth, active).contains(x),
    ensures
        rows_at(f, i, depth, active).contains(x),
    decreases k - i,
{
    if i < k {
        lemma_rows_later(f, i + 1, k, depth, active, x);
        let r = rows_at(f, i + 1, depth, active);
        let j = choose|j: int| 0 <= j < r.len() && r[j] == x;
        let all = rows_at(f, i, depth, active);
        let head = all.len() - r.len();
        assert(all[head + j] == x);
    }
}

/// Every node whose ancestors are all expanded directories is shown, one
/// row per level below the top: its row's depth is `depth` plus the number
/// of its ancestors. For every tree, every such node and every starting
/// depth that the count does not push past the largest `usize`.
pub proof fn law_row_depth_counts_ancestors(f: Seq<NodeView>, ip: Seq<int>, depth: nat, active: Option<Seq<char>>)
    requires
        node_at(f, ip, true) is Some,
        depth + ip.len() - 1 <= usize::MAX,
    ensures
        rows_at(f, 0, depth, active).contains(row_of(node_at(f, ip, true)->0, (depth + ip.len() - 1) as nat, active)),
    decreases ip.len(),
{
    let k = ip[0];
    let n = f[k];
    let rk = rows_at(f, k, depth, active);
    if ip.len() == 1 {
        assert(rk[0] == row_of(n, depth, active));
        assert(rk.contains(rk[0]));
    } else {
        let sub = ip.drop_first();
        assert(depth < usize::MAX);
        law_row_depth_counts_ancestors(n.children, sub, next_depth(depth), active);
        let x = row_of(node_at(n.children, sub, true)->0, (next_depth(depth) + sub.len() - 1) as nat, active);
        let kids = rows_at(n.children, 0, next_depth(depth), active);
        let j = choose|j: int| 0 <= j < kids.len() && kids[j] == x;
        assert(rk[1 + j] == x);
        assert(rk.contains(x));
    }
    lemma_rows_later(f, 0, k, depth, active, row_of(node_at(f, ip, true)->0, (depth + ip.len() - 1) as nat, active));
}

/// `depth` moved `m` levels down, held at the largest `usize`.
pub open spec fn depth_below(depth: nat, m: nat) -> nat {
    if depth + m <= usize::MAX { depth + m } else { usize::MAX as nat }
}

/// Every row shows a node whose ancestors are all expanded directories, at
/// `depth` plus the number of those ancestors (held at the largest
/// `usize`): for every tree, starting depth and row.
pub proof fn law_every_row_shows_a_node_at_its_depth(f: Seq<NodeView>, i: int, depth: nat, active: Option<Seq<char>>, k: int)
    requires
        0 <= i,
        depth <= usize::MAX,
        0 <= k < rows_at(f, i, depth, active).len(),
    ensures
        exists|ip: Seq<int>| #[trigger] node_at(f, ip, true) matches Some(n)
            && rows_at(f, i, depth, active)[k] == row_of(n, depth_below(depth, (ip.len() - 1) as nat), active),
    decreases f, f.len() - i,
{
    let rows = rows_at(f, i, depth, active);
    let n = f[i];
    let kids = if n.is_dir && n.expanded { rows_at(n.children, 0, next_depth(depth), active) } else { Seq::empty() };
    let rest = rows_at(f, i + 1, depth, active);
    assert(rows == seq![row_of(n, depth, active)] + kids + rest);
    if k == 0 {
        let ip = seq![i];
        assert(node_at(f, ip, true) == Some(n));
        assert(rows[k] == row_of(n, depth_below(depth, (ip.len() - 1) as nat), active));
    } else if k < 1 + kids.len() {
        law_every_row_shows_a_node_at_its_depth(n.children, 0, next_depth(depth), active, k - 1);
        let sub = choose|sub: Seq<int>| #[trigger] node_at(n.children, sub, true) matches Some(m)
            && kids[k - 1] == row_of(m, depth_below(next_depth(depth), (sub.len() - 1) as nat), active);
        let ip = seq![i] + sub;
        assert(ip.drop_first() =~= sub);
        assert(sub.len() > 0);
        assert(node_at(f, ip, true) == node_at(n.children, sub, true));
        assert(rows[k] == kids[k - 1]);
        assert(depth_below(next_depth(depth), (sub.len() - 1) as nat) == depth_below(depth, (ip.len() - 1) as nat));
    } else {
        law_every_row_shows_a_node_at_its_depth(f, i + 1, depth, active, k - 1 - kids.len());
        assert(rows[k] == rest[k - 1 - kids.len()]);
    }
}

fn rows_into(nodes: &Vec<FileTreeNode>, depth: usize, active: &Option<String>, out: &mut Vec<TreeRow>)
    ensures
        row_views(final(out)@) == row_views(old(out)@) + rows_at(
            forest_view(nodes@),
            0,
            depth as nat,
            match active { Some(a) => Some(a@), None => None },
        ),
    decreases nodes@,
{
    let ghost act = match active { Some(a) => Some(a@), None => None };
    let ghost f = forest_view(nodes@);
    proof { lemma_forest_view(nodes@); }
    let mut i: usize = 0;
    while i < nodes.len()
        invariant
            0 <= i <= nodes@.len(),
            f == forest_view(nodes@),
            f.len() == nodes@.len(),
            forall|j: int| 0 <= j < nodes@.len() ==> #[trigger] f[j] == node_view(nodes@[j]),
            act == match active { Some(a) => Some(a@), None => None },
            row_views(out@) + rows_at(f, i as int, depth as nat, act)
                == row_views(old(out)@) + rows_at(f, 0, depth as nat, act),
        decreases nodes@.len() - i,
    {
        let node = &nodes[i];
        let selected = !node.is_dir && match active {
            Some(a) => node.path == *a,
            None => false,
        };
        let ghost before = row_views(out@);
        let row = TreeRow {
            path: node.path.clone(),
            name: node.name.clone(),
            depth,
            is_dir: node.is_dir,
            expanded: node.expanded,
            selected,
        };
        out.push(row);
        let ghost head = seq![RowView {
            path: f[i as int].path,
            name: f[i as int].name,
            depth: depth as nat,
            is_dir: f[i as int].is_dir,
            expanded: f[i as int].expanded,
            selected: !f[i as int].is_dir && act == Some(f[i as int].path),
        }];
        assert(row_views(out@) =~= before + head);
        let ghost mid = row_views(out@);
        let ghost sub = if f[i as int].is_dir && f[i as int].expanded {
            rows_at(f[i as int].children, 0, next_depth(depth as nat), act)
        } else {
            Seq::<RowView>::empty()
        };
        if node.is_dir && node.expanded {
            assert(decreases_to!(nodes@ => nodes@[i as int].children@));
            rows_into(&node.children, depth.saturating_add(1), active, out);
        }
        assert(row_views(out@) =~= mid + sub);
        assert(rows_at(f, i as int, depth as nat, act) =~= head + sub + rows_at(f, i + 1, depth as nat, act));
        assert(row_views(out@) + rows_at(f, i + 1, depth as nat, act) =~= before + rows_at(f, i as int, depth as nat, act));
        i = i + 1;
    }
    assert(row_views(out@) + rows_at(f, i as int, depth as nat, act) =~= row_views(out@));
}

/// The rows the sidebar shows, in order: see `rows_at`.
pub fn visible_rows(nodes: &Vec<FileTreeNode>, active_path: Option<&str>) -> (r: Vec<TreeRow>)
    ensures
        row_views(r@) == rows_at(
            forest_view(nodes@),
            0,
            0,
            match active_path { Some(a) => Some(a@), None => None },
        ),
{
    let active = match active_path {
        Some(a) => Some(a.to_string()),
        None => None,
    };
    let mut rows: Vec<TreeRow> = Vec::new();
    rows_into(nodes, 0, &active, &mut rows);
    assert(row_views(rows@) =~= Seq::<RowView>::empty() + rows_at(
        forest_view(nodes@),
        0,
        0,
        match active_path { Some(a) => Some(a@), None => None },
    )) by {
        assert(row_views(Seq::<TreeRow>::empty()) =~= Seq::<RowView>::empty());
    }
    rows
}

/// Directory expansion states by path, as captured from a tree.
pub open spec fn expansion_view(e: Seq<(String, bool)>) -> Seq<(Seq<char>, bool)> {
    e.map_values(|x: (String, bool)| (x.0@, x.1))
}

/// The directories of `f[..n]` with their expansion, in the order a
/// depth-first walk that takes the last sibling first meets them (each
/// directory before what it holds).
pub open spec fn capture_at(f: Seq<NodeView>, n: int) -> Seq<(Seq<char>, bool)>
    decreases f, n,
{
    if n <= 0 || n > f.len() {
        Seq::empty()
    } else {
        let k = n - 1;
        (if f[k].is_dir {
            seq![(f[k].path, f[k].expanded)] + capture_at(f[k].children, f[k].children.len() as int)
        } else {
            Seq::empty()
        }) + capture_at(f, n - 1)
    }
}

/// The directories of `f` with their expansion (`capture_at`).
pub open spec fn capture_all(f: Seq<NodeView>) -> Seq<(Seq<char>, bool)> {
    capture_at(f, f.len() as int)
}

/// The expansion recorded for `p` in `e[..n]`: the last entry for it.
pub open spec fn lookup_last(e: Seq<(Seq<char>, bool)>, n: int, p: Seq<char>) -> Option<bool>
    decreases n,
{
    if n <= 0 || n > e.len() {
        None
    } else if e[n - 1].0 == p {
        Some(e[n - 1].1)
    } else {
        lookup_last(e, n - 1, p)
    }
}

/// The expansion recorded for `p` in `e`: the last entry for it, so that a
/// directory met later in `capture_at`'s walk wins.
pub open spec fn lookup(e: Seq<(Seq<char>, bool)>, p: Seq<char>) -> Option<bool> {
    lookup_last(e, e.len() as int, p)
}

fn capture_into(nodes: &Vec<FileTreeNode>, out: &mut Vec<(String, bool)>)
    ensures
        expansion_view(final(out)@) == expansion_view(old(out)@) + capture_all(forest_view(nodes@)),
    decreases nodes@,
{
    let ghost f = forest_view(nodes@);
    proof { lemma_forest_view(nodes@); }
    let mut i: usize = nodes.len();
    while i > 0
        invariant
            0 <= i <= nodes@.len(),
            f == forest_view(nodes@),
            f.len() == nodes@.len(),
            forall|j: int| 0 <= j < nodes@.len() ==> #[trigger] f[j] == node_view(nodes@[j]),
            expansion_view(out@) + capture_at(f, i as int) == expansion_view(old(out)@) + capture_at(f, f.len() as int),
        decreases i,
    {
        i = i - 1;
        let node = &nodes[i];
        let ghost before = expansion_view(out@);
        if node.is_dir {
            out.push((node.path.clone(), node.expanded));
            assert(expansion_view(out@) =~= before + seq![(f[i as int].path, f[i as int].expanded)]);
            assert(decreases_to!(nodes@ => nodes@[i as int].children@));
            capture_into(&node.children, out);
            assert(capture_at(f, i + 1) =~= seq![(f[i as int].path, f[i as int].expanded)]
                + capture_at(f[i as int].children, f[i as int].children.len() as int) + capture_at(f, i as int));
            assert(expansion_view(out@) + capture_at(f, i as int) =~= before + capture_at(f, i + 1));
        } else {
            assert(capture_at(f, i + 1) =~= capture_at(f, i as int));
        }
    }
    assert(expansion_view(out@) + capture_at(f, 0) =~= expansion_view(out@));
}

/// The expansion state of every directory (`capture_all`).
pub fn capture_expansion(nodes: &Vec<FileTreeNode>) -> (r: Vec<(String, bool)>)
    ensures
        expansion_view(r@) == capture_all(forest_view(nodes@)),
{
    let mut r: Vec<(String, bool)> = Vec::new();
    capture_into(nodes, &mut r);
    assert(expansion_view(r@) =~= Seq::<(Seq<char>, bool)>::empty() + capture_all(forest_view(nodes@))) by {
        assert(expansion_view(Seq::<(String, bool)>::empty()) =~= Seq::<(Seq<char>, bool)>::empty());
    }
    r
}

/// The expansion recorded for `path` in `expansion` (`lookup`: the last
/// entry for it).
pub fn lookup_expansion(expansion: &Vec<(String, bool)>, path: &String) -> (r: Option<bool>)
    ensures
        r == lookup(expansion_view(expansion@), path@),
{
    let ghost e = expansion_view(expansion@);
    proof { assert(e.len() == expansion@.len()); }
    let mut i: usize = expansion.len();
    while i > 0
        invariant
            0 <= i <= expansion@.len(),
            e == expansion_view(expansion@),
            e.len() == expansion@.len(),
            lookup(e, path@) == lookup_last(e, i as int, path@),
        decreases i,
    {
        if expansion[i - 1].0 == *path {
            return Some(expansion[i - 1].1);
        }
        i = i - 1;
    }
    None
}

/// A node with every directory's expansion taken from `e` where `e` has
/// one for its path.
pub open spec fn apply_node(n: NodeView, e: Seq<(Seq<char>, bool)>) -> NodeView
    decreases n, 0int,
{
    if n.is_dir {
        NodeView {
            expanded: match lookup(e, n.path) {
                Some(x) => x,
                None => n.expanded,
            },
            children: apply_from(n.children, 0, e),
            ..n
        }
    } else {
        n
    }
}

pub open spec fn apply_from(f: Seq<NodeView>, i: int, e: Seq<(Seq<char>, bool)>) -> Seq<NodeView>
    decreases f, f.len() - i,
{
    if i < 0 || i >= f.len() {
        Seq::empty()
    } else {
        seq![apply_node(f[i], e)] + apply_from(f, i + 1, e)
    }
}

pub proof fn lemma_apply_from(f: Seq<NodeView>, i: int, e: Seq<(Seq<char>, bool)>)
    requires
        0 <= i <= f.len(),
    ensures
        apply_from(f, i, e).len() == f.len() - i,
        forall|j: int| i <= j < f.len() ==> #[trigger] apply_from(f, i, e)[j - i] == apply_node(f[j], e),
    decreases f.len() - i,
{
    if i < f.len() {
        lemma_apply_from(f, i + 1, e);
        assert forall|j: int| i <= j < f.len() implies #[trigger] apply_from(f, i, e)[j - i] == apply_node(f[j], e) by {
            if j > i {
                assert(apply_from(f, i, e)[j - i] == apply_from(f, i + 1, e)[j - (i + 1)]);
            }
        }
    }
}

fn apply_expansion(nodes: &mut Vec<FileTreeNode>, e: &Vec<(String, bool)>)
    ensures
        forest_view(final(nodes)@) == apply_from(forest_view(old(nodes)@), 0, expansion_view(e@)),
    decreases old(nodes)@,
{
    let ghost f = forest_view(nodes@);
    let ghost ev = expansion_view(e@);
    proof {
        lemma_forest_view(nodes@);
        lemma_apply_from(f, 0, ev);
    }
    let mut i: usize = 0;
    while i < nodes.len()
        invariant
            0 <= i <= nodes@.len(),
            nodes@.len() == old(nodes)@.len(),
            f == forest_view(old(nodes)@),
            f.len() == nodes@.len(),
            ev == expansion_view(e@),
            forall|j: int| 0 <= j < nodes@.len() ==> #[trigger] f[j] == node_view(old(nodes)@[j]),
            forall|j: int| i <= j < nodes@.len() ==> nodes@[j] == old(nodes)@[j],
            forall|j: int| 0 <= j < i ==> node_view(#[trigger] nodes@[j]) == apply_node(f[j], ev),
        decreases nodes@.len() - i,
    {
        if nodes[i].is_dir {
            let found = lookup_expansion(e, &nodes[i].path);
            match found {
                Some(x) => {
                    nodes[i].expanded = x;
                },
                None => {},
            }
            assert(decreases_to!(old(nodes)@ => old(nodes)@[i as int].children@));
            apply_expansion(&mut nodes[i].children, e);
            proof {
                assert(node_view(nodes@[i as int]) =~= apply_node(f[i as int], ev));
            }
        }
        i = i + 1;
    }
    proof {
        lemma_forest_view(nodes@);
        assert forall|j: int| 0 <= j < nodes@.len() implies forest_view(nodes@)[j] == apply_from(f, 0, ev)[j] by {
            assert(apply_from(f, 0, ev)[j - 0] == apply_node(f[j], ev));
        }
        assert(forest_view(nodes@) =~= apply_from(f, 0, ev));
    }
}

/// Gives each directory of `refreshed` the expansion that `previous` had
/// for the same path (see `apply_node`).
pub fn preserve_expansion(previous: &Vec<FileTreeNode>, refreshed: &mut Vec<FileTreeNode>)
    ensures
        forest_view(final(refreshed)@) == apply_from(
            forest_view(old(refreshed)@),
            0,
            capture_all(forest_view(previous@)),
        ),
{
    let expansion = capture_expansion(previous);
    apply_expansion(refreshed, &expansion);
}

/// Index of the first node of `f[i..]` whose path is `p` (a directory when
/// `dir_only`), or -1.
pub open spec fn find_node(f: Seq<NodeView>, i: int, p: Seq<char>, dir_only: bool) -> int
    decreases f.len() - i,
{
    if i < 0 || i >= f.len() {
        -1
    } else if f[i].path == p && (f[i].is_dir || !dir_only) {
        i
    } else {
        find_node(f, i + 1, p, dir_only)
    }
}

pub proof fn lemma_find_node(f: Seq<NodeView>, i: int, p: Seq<char>, dir_only: bool)
    requires
        0 <= i,
    ensures
        find_node(f, i, p, dir_only) == -1 || (i <= find_node(f, i, p, dir_only) < f.len()
            && f[find_node(f, i, p, dir_only)].path == p
            && (f[find_node(f, i, p, dir_only)].is_dir || !dir_only)),
    decreases f.len() - i,
{
    if i < f.len() {
        lemma_find_node(f, i + 1, p, dir_only);
    }
}

/// A new file node.
pub open spec fn file_node_view(path: Seq<char>, name: Seq<char>) -> NodeView {
    NodeView { path, name, is_dir: false, expanded: true, children: Seq::empty() }
}

/// A new directory node: its name ends in `/`, its expansion comes from
/// `e` when `e` records one, else it is expanded.
pub open spec fn dir_node_view(path: Seq<char>, name: Seq<char>, e: Seq<(Seq<char>, bool)>, children: Seq<NodeView>) -> NodeView {
    NodeView {
        path,
        name: name.push('/'),
        is_dir: true,
        expanded: match lookup(e, path) {
            Some(x) => x,
            None => true,
        },
        children,
    }
}

/// `f` with the chain of components `comps` added below `parent`: every
/// component but the last is a directory, reused when one with its path
/// exists at that level; the last is a file, added unless a node with its
/// path exists at that level.
pub open spec fn insert_chain(f: Seq<NodeView>, parent: Seq<char>, comps: Seq<Seq<char>>, e: Seq<(Seq<char>, bool)>) -> Seq<NodeView>
    decreases comps.len(),
{
    if comps.len() == 0 {
        f
    } else {
        let p = spec_join(parent, comps[0]);
        if comps.len() == 1 {
            if find_node(f, 0, p, false) >= 0 {
                f
            } else {
                f.push(file_node_view(p, comps[0]))
            }
        } else {
            let k = find_node(f, 0, p, true);
            if k >= 0 {
                f.update(k, NodeView { children: insert_chain(f[k].children, p, comps.drop_first(), e), ..f[k] })
            } else {
                f.push(dir_node_view(p, comps[0], e, insert_chain(Seq::empty(), p, comps.drop_first(), e)))
            }
        }
    }
}

fn find_node_index(nodes: &Vec<FileTreeNode>, p: &String, dir_only: bool) -> (r: Option<usize>)
    ensures
        match r {
            Some(k) => k == find_node(forest_view(nodes@), 0, p@, dir_only) && k < nodes@.len(),
            None => find_node(forest_view(nodes@), 0, p@, dir_only) == -1,
        },
{
    let ghost f = forest_view(nodes@);
    proof { lemma_forest_view(nodes@); }
    let mut i: usize = 0;
    while i < nodes.len()
        invariant
            0 <= i <= nodes@.len(),
            f == forest_view(nodes@),
            f.len() == nodes@.len(),
            forall|j: int| 0 <= j < nodes@.len() ==> #[trigger] f[j] == node_view(nodes@[j]),
            find_node(f, 0, p@, dir_only) == find_node(f, i as int, p@, dir_only),
        decreases nodes@.len() - i,
    {
        if nodes[i].path == *p && (nodes[i].is_dir || !dir_only) {
            return Some(i);
        }
        i = i + 1;
    }
    None
}

fn dir_name(name: &String) -> (r: String)
    ensures
        r@ == name@.push('/'),
{
    let mut r = name.clone();
    push_char(&mut r, '/');
    r
}

fn insert_components(
    nodes: &mut Vec<FileTreeNode>,
    parent: &String,
    comps: &Vec<String>,
    k: usize,
    e: &Vec<(String, bool)>,
)
    requires
        k <= comps@.len(),
    ensures
        forest_view(final(nodes)@) == insert_chain(
            forest_view(old(nodes)@),
            parent@,
            views(comps@).subrange(k as int, comps@.len() as int),
            expansion_view(e@),
        ),
    decreases comps@.len() - k,
{
    let ghost f = forest_view(nodes@);
    let ghost cs = views(comps@).subrange(k as int, comps@.len() as int);
    let ghost ev = expansion_view(e@);
    proof { lemma_forest_view(nodes@); }
    if k == comps.len() {
        return;
    }
    assert(cs[0] == comps@[k as int]@);
    assert(cs.drop_first() =~= views(comps@).subrange(k + 1, comps@.len() as int));
    let path = join(parent, &comps[k]);
    if k + 1 == comps.len() {
        match find_node_index(nodes, &path, false) {
            Some(_) => {},
            None => {
                nodes.push(FileTreeNode {
                    name: comps[k].clone(),
                    path,
                    is_dir: false,
                    expanded: true,
                    children: Vec::new(),
                });
                proof {
                    lemma_forest_view(nodes@);
                    assert(forest_view(nodes@) =~= f.push(file_node_view(spec_join(parent@, cs[0]), cs[0])));
                }
            },
        }
        return;
    }
    match find_node_index(nodes, &path, true) {
        Some(idx) => {
            let ghost before = nodes@;
            insert_components(&mut nodes[idx].children, &path, comps, k + 1, e);
            proof {
                lemma_forest_view(nodes@);
                assert(forest_view(nodes@) =~= f.update(idx as int, NodeView {
                    children: insert_chain(f[idx as int].children, spec_join(parent@, cs[0]), cs.drop_first(), ev),
                    ..f[idx as int]
                }));
            }
        },
        None => {
            let expanded = match lookup_expansion(e, &path) {
                Some(x) => x,
                None => true,
            };
            let name = dir_name(&comps[k]);
            let child_parent = path.clone();
            nodes.push(FileTreeNode {
                name,
                path,
                is_dir: true,
                expanded,
                children: Vec::new(),
            });
            let last = nodes.len() - 1;
            proof {
                assert(forest_view(nodes@[last as int].children@) =~= Seq::<NodeView>::empty());
            }
            insert_components(&mut nodes[last].children, &child_parent, comps, k + 1, e);
            proof {
                lemma_forest_view(nodes@);
                assert(forest_view(nodes@) =~= f.push(dir_node_view(
                    spec_join(parent@, cs[0]),
                    cs[0],
                    ev,
                    insert_chain(Seq::empty(), spec_join(parent@, cs[0]), cs.drop_first(), ev),
                )));
            }
        },
    }
}

/// Each level of `f[i..]` is in order (neighbours by `node_order`), and so
/// is every directory below it.
pub open spec fn sorted_at(f: Seq<NodeView>, i: int) -> bool
    decreases f, f.len() - i,
{
    if i < 0 || i >= f.len() {
        true
    } else {
        &&& (i + 1 < f.len() ==> node_order(f[i], f[i + 1]) <= 0)
        &&& (f[i].is_dir ==> sorted_at(f[i].children, 0))
        &&& sorted_at(f, i + 1)
    }
}

/// What a node is, apart from its children.
pub open spec fn entry(n: NodeView) -> (Seq<char>, Seq<char>, bool, bool) {
    (n.path, n.name, n.is_dir, n.expanded)
}

/// Every node of `f[i..]` and below, apart from its children.
pub open spec fn entries_at(f: Seq<NodeView>, i: int) -> Set<(Seq<char>, Seq<char>, bool, bool)>
    decreases f, f.len() - i,
{
    if i < 0 || i >= f.len() {
        Set::empty()
    } else {
        set![entry(f[i])] + entries_at(f[i].children, 0) + entries_at(f, i + 1)
    }
}

/// `x` is `n` or lies below it.
pub open spec fn in_subtree(n: NodeView, x: (Seq<char>, Seq<char>, bool, bool)) -> bool {
    x == entry(n) || entries_at(n.children, 0).contains(x)
}

/// The entries below a level are those of its nodes and of their subtrees.
pub proof fn lemma_entries_at(f: Seq<NodeView>, i: int, x: (Seq<char>, Seq<char>, bool, bool))
    requires
        0 <= i,
    ensures
        entries_at(f, i).contains(x) <==> exists|j: int| i <= j < f.len() && #[trigger] in_subtree(f[j], x),
    decreases f.len() - i,
{
    if i < f.len() {
        lemma_entries_at(f, i + 1, x);
        if entries_at(f, i).contains(x) {
            if in_subtree(f[i], x) {
            } else {
                assert(entries_at(f, i + 1).contains(x));
            }
        }
        if exists|j: int| i <= j < f.len() && #[trigger] in_subtree(f[j], x) {
            let j = choose|j: int| i <= j < f.len() && #[trigger] in_subtree(f[j], x);
            if j > i {
                assert(entries_at(f, i + 1).contains(x));
            }
        }
    }
}

/// Two levels with the same nodes (in any order) have the same entries.
pub proof fn lemma_entries_same_nodes(a: Seq<NodeView>, b: Seq<NodeView>)
    requires
        forall|n: NodeView| a.contains(n) <==> b.contains(n),
    ensures
        entries_at(a, 0) == entries_at(b, 0),
{
    assert forall|x: (Seq<char>, Seq<char>, bool, bool)| entries_at(a, 0).contains(x) <==> entries_at(b, 0).contains(x) by {
        lemma_entries_at(a, 0, x);
        lemma_entries_at(b, 0, x);
        if entries_at(a, 0).contains(x) {
            let j = choose|j: int| 0 <= j < a.len() && #[trigger] in_subtree(a[j], x);
            assert(a.contains(a[j]));
            let k = choose|k: int| 0 <= k < b.len() && b[k] == a[j];
            assert(in_subtree(b[k], x));
        }
        if entries_at(b, 0).contains(x) {
            let j = choose|j: int| 0 <= j < b.len() && #[trigger] in_subtree(b[j], x);
            assert(b.contains(b[j]));
            let k = choose|k: int| 0 <= k < a.len() && a[k] == b[j];
            assert(in_subtree(a[k], x));
        }
    }
    assert(entries_at(a, 0) =~= entries_at(b, 0));
}

/// Neighbours in order on one level.
pub open spec fn level_sorted(f: Seq<NodeView>) -> bool {
    forall|i: int| 0 <= i < f.len() - 1 ==> node_order(#[trigger] f[i], f[i + 1]) <= 0
}

/// On a level whose neighbours are in order, every entry comes no later
/// than every entry after it: directories before files, then names without
/// regard to ASCII case, then full paths.
pub proof fn law_level_sorted_orders_every_pair(f: Seq<NodeView>, i: int, j: int)
    requires
        level_sorted(f),
        0 <= i <= j < f.len(),
    ensures
        node_order(f[i], f[j]) <= 0,
    decreases j - i,
{
    if i < j {
        law_level_sorted_orders_every_pair(f, i, j - 1);
        assert(node_order(f[j - 1], f[j]) <= 0);
        lemma_node_order_transitive(f[i], f[j - 1], f[j]);
    } else {
        lemma_node_order_antisymmetric(f[i], f[i]);
    }
}

/// Moving one element keeps the elements.
pub proof fn lemma_move_keeps_elements<A>(s: Seq<A>, i: int, j: int)
    requires
        0 <= j <= i < s.len(),
    ensures
        forall|n: A| s.remove(i).insert(j, s[i]).contains(n) <==> s.contains(n),
        s.remove(i).insert(j, s[i]).len() == s.len(),
{
    let t = s.remove(i).insert(j, s[i]);
    assert forall|n: A| t.contains(n) <==> s.contains(n) by {
        if t.contains(n) {
            let k = choose|k: int| 0 <= k < t.len() && t[k] == n;
            if k < j {
                assert(s[k] == n);
            } else if k == j {
                assert(s[i] == n);
            } else if k <= i {
                assert(s[k - 1] == n);
            } else {
                assert(s[k] == n);
            }
        }
        if s.contains(n) {
            let k = choose|k: int| 0 <= k < s.len() && s[k] == n;
            if k < j {
                assert(t[k] == n);
            } else if k < i {
                assert(t[k + 1] == n);
            } else if k == i {
                assert(t[j] == n);
            } else {
                assert(t[k] == n);
            }
        }
    }
}

/// `s` with `x` put right after the last node that does not come after it.
pub open spec fn insert_in_order(s: Seq<NodeView>, x: NodeView) -> Seq<NodeView>
    decreases s.len(),
{
    if s.len() == 0 {
        seq![x]
    } else if node_order(x, s.last()) < 0 {
        insert_in_order(s.drop_last(), x).push(s.last())
    } else {
        s.push(x)
    }
}

/// One level sorted by `node_order`, by inserting its nodes in turn (so
/// nodes that compare equal keep their order).
pub open spec fn sort_level_view(s: Seq<NodeView>) -> Seq<NodeView>
    decreases s.len(),
{
    if s.len() == 0 {
        s
    } else {
        insert_in_order(sort_level_view(s.drop_last()), s.last())
    }
}

/// The whole tree sorted: below every directory the children are sorted,
/// then each level is (files keep what they hold).
pub open spec fn sort_forest(f: Seq<NodeView>) -> Seq<NodeView>
    decreases f, 1int, 0int,
{
    sort_level_view(children_sorted_from(f, 0))
}

/// The nodes `f[i..]`, each directory with its children sorted by
/// `sort_forest`.
pub open spec fn children_sorted_from(f: Seq<NodeView>, i: int) -> Seq<NodeView>
    decreases f, 0int, f.len() - i,
{
    if i < 0 || i >= f.len() {
        Seq::empty()
    } else if f[i].is_dir {
        seq![NodeView { children: sort_forest(f[i].children), ..f[i] }] + children_sorted_from(f, i + 1)
    } else {
        seq![f[i]] + children_sorted_from(f, i + 1)
    }
}

/// A node with its children sorted when it is a directory.
pub open spec fn with_sorted_children(n: NodeView) -> NodeView {
    if n.is_dir {
        NodeView { children: sort_forest(n.children), ..n }
    } else {
        n
    }
}

pub proof fn lemma_children_sorted_from(f: Seq<NodeView>, i: int)
    requires
        0 <= i <= f.len(),
    ensures
        children_sorted_from(f, i).len() == f.len() - i,
        forall|k: int| i <= k < f.len() ==> #[trigger] children_sorted_from(f, i)[k - i]
            == with_sorted_children(f[k]),
    decreases f.len() - i,
{
    if i < f.len() {
        lemma_children_sorted_from(f, i + 1);
        let c = children_sorted_from(f, i);
        let r = children_sorted_from(f, i + 1);
        assert(c == seq![with_sorted_children(f[i])] + r);
        assert forall|k: int| i <= k < f.len() implies #[trigger] c[k - i]
            == with_sorted_children(f[k]) by {
            if k > i {
                assert(c[k - i] == r[k - (i + 1)]);
            }
        }
    }
}

/// Inserting `x` where it stops being preceded: every node from `j` on
/// comes strictly after `x`, the node before `j` does not.
pub proof fn lemma_insert_in_order_at(s: Seq<NodeView>, x: NodeView, j: int)
    requires
        0 <= j <= s.len(),
        forall|b: int| j <= b < s.len() ==> node_order(x, #[trigger] s[b]) < 0,
        j > 0 ==> node_order(x, s[j - 1]) >= 0,
    ensures
        insert_in_order(s, x) == s.take(j) + seq![x] + s.skip(j),
    decreases s.len(),
{
    if s.len() == j {
        assert(s.skip(j) =~= Seq::<NodeView>::empty());
        assert(s.take(j) =~= s);
        if j == 0 {
            assert(s.take(j) + seq![x] + s.skip(j) =~= seq![x]);
        } else {
            assert(s.take(j) + seq![x] + s.skip(j) =~= s.push(x));
        }
    } else {
        assert(node_order(x, s[s.len() - 1]) < 0);
        let d = s.drop_last();
        lemma_insert_in_order_at(d, x, j);
        assert(d.take(j) =~= s.take(j));
        assert(d.skip(j).push(s.last()) =~= s.skip(j));
        assert((d.take(j) + seq![x] + d.skip(j)).push(s.last()) =~= s.take(j) + seq![x] + s.skip(j));
    }
}

/// One step of the insertion sort: with `fb[..i]` the sorted first `i`
/// nodes of `orig` and the rest as in `orig`, moving `fb[i]` to `j`, where
/// it stops being preceded, sorts the first `i + 1`.
proof fn lemma_sort_level_step(orig: Seq<NodeView>, fb: Seq<NodeView>, i: int, j: int)
    requires
        0 <= j <= i < fb.len(),
        fb.len() == orig.len(),
        fb.take(i) == sort_level_view(orig.take(i)),
        fb.skip(i) == orig.skip(i),
        forall|b: int| j <= b < i ==> node_order(fb[i], #[trigger] fb[b]) < 0,
        j > 0 ==> node_order(fb[i], fb[j - 1]) >= 0,
    ensures
        fb.remove(i).insert(j, fb[i]).take(i + 1) == sort_level_view(orig.take(i + 1)),
        fb.remove(i).insert(j, fb[i]).skip(i + 1) == orig.skip(i + 1),
{
    let t = fb.remove(i).insert(j, fb[i]);
    let pre = fb.take(i);
    assert forall|b: int| j <= b < pre.len() implies node_order(fb[i], #[trigger] pre[b]) < 0 by {
        assert(pre[b] == fb[b]);
    }
    if j > 0 {
        assert(pre[j - 1] == fb[j - 1]);
    }
    lemma_insert_in_order_at(pre, fb[i], j);
    assert(orig.take(i + 1).drop_last() =~= orig.take(i));
    assert(orig[i] == fb[i]) by {
        assert(fb.skip(i)[0] == orig.skip(i)[0]);
    }
    assert(orig.take(i + 1).last() == orig[i]);
    assert(t.take(i + 1) =~= pre.take(j) + seq![fb[i]] + pre.skip(j));
    assert forall|k: int| 0 <= k < orig.len() - (i + 1) implies #[trigger] t.skip(i + 1)[k] == orig.skip(i + 1)[k] by {
        assert(t.skip(i + 1)[k] == fb[i + 1 + k]);
        assert(fb.skip(i)[k + 1] == orig.skip(i)[k + 1]);
    }
    assert(t.skip(i + 1) =~= orig.skip(i + 1));
}

/// Stable insertion sort of one level by `node_precedes`.
fn sort_level(nodes: &mut Vec<FileTreeNode>)
    ensures
        forest_view(final(nodes)@) == sort_level_view(forest_view(old(nodes)@)),
        level_sorted(forest_view(final(nodes)@)),
        forall|n: NodeView| forest_view(final(nodes)@).contains(n) <==> forest_view(old(nodes)@).contains(n),
        forall|n: FileTreeNode| final(nodes)@.contains(n) <==> old(nodes)@.contains(n),
        final(nodes)@.len() == old(nodes)@.len(),
{
    let ghost orig = forest_view(nodes@);
    let ghost orig_nodes = nodes@;
    proof {
        lemma_forest_view(nodes@);
        if orig.len() > 0 {
            let t = orig.take(1);
            assert(t.drop_last() =~= Seq::<NodeView>::empty());
            assert(sort_level_view(t.drop_last()) == Seq::<NodeView>::empty());
            assert(insert_in_order(Seq::<NodeView>::empty(), t.last()) == seq![t.last()]);
            assert(sort_level_view(t) =~= seq![orig[0]]);
            assert(forest_view(nodes@).take(1) =~= t);
        }
    }
    let mut i: usize = 1;
    while i < nodes.len()
        invariant
            1 <= i,
            i <= nodes@.len() || nodes@.len() == 0,
            nodes@.len() == old(nodes)@.len(),
            orig.len() == nodes@.len(),
            forest_view(nodes@).len() == nodes@.len(),
            forall|n: NodeView| forest_view(nodes@).contains(n) <==> orig.contains(n),
            forall|n: FileTreeNode| nodes@.contains(n) <==> orig_nodes.contains(n),
            orig_nodes == old(nodes)@,
            forall|a: int| 0 <= a < i - 1 && a + 1 < nodes@.len() ==>
                node_order(#[trigger] forest_view(nodes@)[a], forest_view(nodes@)[a + 1]) <= 0,
            nodes@.len() > 0 ==> forest_view(nodes@).take(i as int) == sort_level_view(orig.take(i as int)),
            nodes@.len() > 0 ==> forest_view(nodes@).skip(i as int) == orig.skip(i as int),
        decreases nodes@.len() - i,
    {
        let ghost before = nodes@;
        let ghost fb = forest_view(before);
        proof { lemma_forest_view(before); }
        let x = nodes.remove(i);
        let mut j: usize = i;
        while j > 0 && node_precedes(&x, &nodes[j - 1])
            invariant
                0 <= j <= i,
                i < before.len(),
                nodes@ == before.remove(i as int),
                fb == forest_view(before),
                node_view(x) == fb[i as int],
                forall|b: int| j <= b < i ==> node_order(fb[i as int], #[trigger] fb[b]) < 0,
            decreases j,
        {
            proof {
                lemma_forest_view(before);
                assert(nodes@[j - 1] == before[j - 1]);
            }
            j = j - 1;
        }
        nodes.insert(j, x);
        proof {
            lemma_forest_view(nodes@);
            let t = fb.remove(i as int).insert(j as int, fb[i as int]);
            assert forall|k: int| 0 <= k < nodes@.len() implies forest_view(nodes@)[k] == t[k] by {
                if k < j {
                    assert(nodes@[k] == before[k]);
                } else if k == j {
                } else if k <= i {
                    assert(nodes@[k] == before[k - 1]);
                } else {
                    assert(nodes@[k] == before[k]);
                }
            }
            assert(forest_view(nodes@) =~= t);
            lemma_move_keeps_elements(fb, i as int, j as int);
            lemma_move_keeps_elements(before, i as int, j as int);
            assert(nodes@ =~= before.remove(i as int).insert(j as int, before[i as int]));
            if j > 0 {
                lemma_node_order_antisymmetric(fb[i as int], fb[j - 1]);
            }
            if j > 0 {
                assert(nodes@[j - 1] == before[j - 1]);
            }
            lemma_sort_level_step(orig, fb, i as int, j as int);
            assert forall|a: int| 0 <= a < i && a + 1 < nodes@.len() implies
                node_order(#[trigger] t[a], t[a + 1]) <= 0 by {
                if a + 1 < j {
                    assert(t[a] == fb[a] && t[a + 1] == fb[a + 1]);
                } else if a + 1 == j {
                    assert(t[a] == fb[a] && t[a + 1] == fb[i as int]);
                } else if a == j {
                    assert(t[a] == fb[i as int] && t[a + 1] == fb[a]);
                } else {
                    assert(t[a] == fb[a - 1] && t[a + 1] == fb[a]);
                }
            }
        }
        i = i + 1;
    }
    proof {
        if orig.len() > 0 {
            assert(forest_view(nodes@).take(nodes@.len() as int) =~= forest_view(nodes@));
            assert(orig.take(orig.len() as int) =~= orig);
        } else {
            lemma_forest_view(nodes@);
            assert(forest_view(nodes@) =~= orig);
        }
    }
}

pub proof fn lemma_sorted_at_from_levels(f: Seq<NodeView>, i: int)
    requires
        0 <= i,
        level_sorted(f),
        forall|j: int| 0 <= j < f.len() && (#[trigger] f[j]).is_dir ==> sorted_at(f[j].children, 0),
    ensures
        sorted_at(f, i),
    decreases f.len() - i,
{
    if i < f.len() {
        lemma_sorted_at_from_levels(f, i + 1);
    }
}

/// Two levels whose nodes agree one by one on everything but children, and
/// whose children have the same entries, have the same entries.
pub proof fn lemma_entries_pointwise(a: Seq<NodeView>, b: Seq<NodeView>)
    requires
        a.len() == b.len(),
        forall|j: int| 0 <= j < a.len() ==> entry(#[trigger] a[j]) == entry(b[j])
            && entries_at(a[j].children, 0) == entries_at(b[j].children, 0),
    ensures
        entries_at(a, 0) == entries_at(b, 0),
{
    assert forall|x: (Seq<char>, Seq<char>, bool, bool)| entries_at(a, 0).contains(x) <==> entries_at(b, 0).contains(x) by {
        lemma_entries_at(a, 0, x);
        lemma_entries_at(b, 0, x);
        if entries_at(a, 0).contains(x) {
            let j = choose|j: int| 0 <= j < a.len() && #[trigger] in_subtree(a[j], x);
            assert(in_subtree(b[j], x));
        }
        if entries_at(b, 0).contains(x) {
            let j = choose|j: int| 0 <= j < b.len() && #[trigger] in_subtree(b[j], x);
            assert(entry(a[j]) == entry(b[j]));
            assert(in_subtree(a[j], x));
        }
    }
    assert(entries_at(a, 0) =~= entries_at(b, 0));
}

/// Sorts every level of the tree: directories first, then names without
/// regard to ASCII case, then full paths (see `sort_forest`). Only the
/// order of siblings changes.
pub fn sort_nodes(nodes: &mut Vec<FileTreeNode>)
    ensures
        forest_view(final(nodes)@) == sort_forest(forest_view(old(nodes)@)),
        sorted_at(forest_view(final(nodes)@), 0),
        entries_at(forest_view(final(nodes)@), 0) == entries_at(forest_view(old(nodes)@), 0),
    decreases old(nodes)@,
{
    let ghost orig = forest_view(nodes@);
    let ghost omid = nodes@;
    proof {
        lemma_forest_view(nodes@);
        lemma_children_sorted_from(orig, 0);
    }
    let ghost cs = children_sorted_from(orig, 0);
    assert forall|j: int| 0 <= j < orig.len() implies #[trigger] cs[j] == with_sorted_children(orig[j]) by {
        assert(cs[j - 0] == with_sorted_children(orig[j]));
    }
    let mut i: usize = 0;
    while i < nodes.len()
        invariant
            0 <= i <= nodes@.len(),
            nodes@.len() == omid.len(),
            omid == old(nodes)@,
            orig == forest_view(omid),
            orig.len() == omid.len(),
            cs == children_sorted_from(orig, 0),
            cs.len() == orig.len(),
            forall|j: int| 0 <= j < orig.len() ==> #[trigger] cs[j] == with_sorted_children(orig[j]),
            forall|j: int| 0 <= j < omid.len() ==> #[trigger] orig[j] == node_view(omid[j]),
            forall|j: int| i <= j < nodes@.len() ==> nodes@[j] == omid[j],
            forall|j: int| 0 <= j < i ==> node_view(#[trigger] nodes@[j]) == cs[j]
                && entries_at(cs[j].children, 0) == entries_at(orig[j].children, 0)
                && (cs[j].is_dir ==> sorted_at(cs[j].children, 0)),
        decreases nodes@.len() - i,
    {
        proof {
            assert(cs[i as int] == with_sorted_children(orig[i as int]));
            assert(orig[i as int] == node_view(omid[i as int]));
        }
        if nodes[i].is_dir {
            proof {
                assert(decreases_to!(omid => omid[i as int].children@));
            }
            sort_nodes(&mut nodes[i].children);
            proof {
                assert(node_view(nodes@[i as int]) == cs[i as int]);
            }
        }
        i = i + 1;
    }
    proof {
        lemma_forest_view(nodes@);
        assert(forest_view(nodes@) =~= cs);
    }
    sort_level(nodes);
    proof {
        let fin = forest_view(nodes@);
        assert forall|j: int| 0 <= j < fin.len() && (#[trigger] fin[j]).is_dir implies sorted_at(fin[j].children, 0) by {
            assert(fin.contains(fin[j]));
            assert(cs.contains(fin[j]));
            let k = choose|k: int| 0 <= k < cs.len() && cs[k] == fin[j];
        }
        lemma_sorted_at_from_levels(fin, 0);
        lemma_entries_same_nodes(fin, cs);
        assert forall|j: int| 0 <= j < cs.len() implies entry(#[trigger] cs[j]) == entry(orig[j])
            && entries_at(cs[j].children, 0) == entries_at(orig[j].children, 0) by {
        }
        lemma_entries_pointwise(cs, orig);
    }
}

/// `f` after adding `p`: a Markdown path below `root`, with at least one
/// component there, is added by `insert_chain`; any other path changes
/// nothing.
pub open spec fn insert_path_step(f: Seq<NodeView>, root: Seq<char>, p: Seq<char>, e: Seq<(Seq<char>, bool)>) -> Seq<NodeView> {
    if spec_is_markdown(p) {
        match spec_relative_components(p, root) {
            Some(c) => if c.len() > 0 {
                insert_chain(f, root, c, e)
            } else {
                f
            },
            None => f,
        }
    } else {
        f
    }
}

/// `f` after adding the first `n` paths of `ps`, in order.
pub open spec fn insert_paths(f: Seq<NodeView>, root: Seq<char>, ps: Seq<Seq<char>>, e: Seq<(Seq<char>, bool)>, n: int) -> Seq<NodeView>
    decreases n,
{
    if n <= 0 {
        f
    } else {
        insert_path_step(insert_paths(f, root, ps, e, n - 1), root, ps[n - 1], e)
    }
}

/// Adds each Markdown path of `paths` below `root` to the tree (see
/// `insert_path_step`), new directories taking their expansion from
/// `expansion`, then sorts every level (see `sort_forest`).
pub fn insert_markdown_paths(
    nodes: &mut Vec<FileTreeNode>,
    root: &str,
    paths: Vec<String>,
    expansion: &Vec<(String, bool)>,
)
    ensures
        forest_view(final(nodes)@) == sort_forest(
            insert_paths(forest_view(old(nodes)@), root@, views(paths@), expansion_view(expansion@), paths@.len() as int),
        ),
        crate::ui::tree_laws::tree_keys_distinct(forest_view(old(nodes)@)) ==>
            crate::ui::tree_laws::tree_keys_distinct(forest_view(final(nodes)@)),
        sorted_at(forest_view(final(nodes)@), 0),
        entries_at(forest_view(final(nodes)@), 0) == entries_at(
            insert_paths(forest_view(old(nodes)@), root@, views(paths@), expansion_view(expansion@), paths@.len() as int),
            0,
        ),
{
    let ghost f0 = forest_view(nodes@);
    let ghost ps = views(paths@);
    let ghost ev = expansion_view(expansion@);
    let root_string = root.to_string();
    let mut i: usize = 0;
    while i < paths.len()
        invariant
            0 <= i <= paths@.len(),
            ps == views(paths@),
            ev == expansion_view(expansion@),
            root_string@ == root@,
            forest_view(nodes@) == insert_paths(f0, root@, ps, ev, i as int),
        decreases paths@.len() - i,
    {
        let path = &paths[i];
        if is_markdown_file(path) {
            match relative_components(path, root) {
                Some(comps) => {
                    if comps.len() > 0 {
                        insert_components(nodes, &root_string, &comps, 0, expansion);
                        assert(views(comps@).subrange(0, comps@.len() as int) =~= views(comps@));
                    }
                },
                None => {},
            }
        }
        i = i + 1;
    }
    sort_nodes(nodes);
    proof {
        if crate::ui::tree_laws::tree_keys_distinct(f0) {
            crate::ui::tree_laws::lemma_insert_paths_distinct(f0, root@, ps, ev, paths@.len() as int);
            crate::ui::tree_laws::lemma_sort_forest_props(insert_paths(f0, root@, ps, ev, paths@.len() as int));
        }
    }
}

} // verus!
