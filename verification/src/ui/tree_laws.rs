//! Why the workspace tree does not depend on how its paths are fed in:
//! sorting a level depends only on which nodes it holds, and adding a path
//! to a sorted tree or to the same tree unsorted gives, once sorted, the
//! same tree.

use vstd::prelude::*;
use vstd::seq_lib::group_to_multiset_ensures;
use crate::state::{
    NodeView, lemma_lex_order_antisymmetric, lemma_lex_order_zero_equal, lemma_node_order_antisymmetric,
    lemma_node_order_transitive, name_key, node_order, path_key,
};
use crate::ui::file_tree::{
    children_sorted_from, dir_node_view, file_node_view, find_node, insert_chain, insert_in_order,
    insert_path_step, insert_paths,
    law_level_sorted_orders_every_pair, lemma_children_sorted_from, lemma_find_node, level_sorted,
    sort_forest, sort_level_view, with_sorted_children,
};
use crate::pathname::spec_join;

verus! {

broadcast use group_to_multiset_ensures;

/// No two nodes of the level share both path and kind.
pub open spec fn level_keys_distinct(f: Seq<NodeView>) -> bool {
    forall|i: int, j: int| 0 <= i < f.len() && 0 <= j < f.len() && i != j ==>
        !((#[trigger] f[i]).path == (#[trigger] f[j]).path && f[i].is_dir == f[j].is_dir)
}

/// Nodes that compare equal have the same kind and path.
proof fn lemma_order_zero(a: NodeView, b: NodeView)
    requires
        node_order(a, b) == 0,
    ensures
        a.is_dir == b.is_dir,
        a.path == b.path,
{
    if a.is_dir == b.is_dir {
        lemma_lex_order_antisymmetric(name_key(a.name), name_key(b.name));
        lemma_lex_order_zero_equal(path_key(a.path), path_key(b.path));
        let (ka, kb) = (path_key(a.path), path_key(b.path));
        assert(a.path.len() == b.path.len()) by {
            assert(ka.len() == a.path.len() && kb.len() == b.path.len());
        }
        assert forall|i: int| 0 <= i < a.path.len() implies a.path[i] == b.path[i] by {
            let (ca, cb) = (a.path[i], b.path[i]);
            assert(ka[i] == kb[i]);
            assert(ka[i] == (if ca == '/' { -1int } else { (ca as u32) as int }));
            assert(kb[i] == (if cb == '/' { -1int } else { (cb as u32) as int }));
            if ca != '/' && cb != '/' {
                assert((ca as u32) == (cb as u32));
                vstd::utf8::char_u32_cast(ca, ca as u32);
                vstd::utf8::char_u32_cast(cb, cb as u32);
            }
        }
        assert(a.path =~= b.path);
    }
}

/// Inserting in order adds exactly the inserted node.
pub proof fn lemma_insert_in_order_multiset(s: Seq<NodeView>, x: NodeView)
    ensures
        insert_in_order(s, x).to_multiset() =~= s.to_multiset().insert(x),
        insert_in_order(s, x).len() == s.len() + 1,
    decreases s.len(),
{
    broadcast use vstd::multiset::group_multiset_axioms;
    if s.len() == 0 {
        assert(seq![x] =~= Seq::<NodeView>::empty().push(x));
    } else {
        let d = s.drop_last();
        assert(s =~= d.push(s.last()));
        if node_order(x, s.last()) < 0 {
            lemma_insert_in_order_multiset(d, x);
        }
    }
}

/// Sorting a level keeps exactly its nodes.
pub proof fn lemma_sort_multiset(s: Seq<NodeView>)
    ensures
        sort_level_view(s).to_multiset() =~= s.to_multiset(),
        sort_level_view(s).len() == s.len(),
    decreases s.len(),
{
    broadcast use vstd::multiset::group_multiset_axioms;
    if s.len() > 0 {
        let d = s.drop_last();
        assert(s =~= d.push(s.last()));
        lemma_sort_multiset(d);
        lemma_insert_in_order_multiset(sort_level_view(d), s.last());
    }
}

/// Inserting in order into a sorted level keeps it sorted.
pub proof fn lemma_insert_in_order_sorted(s: Seq<NodeView>, x: NodeView)
    requires
        level_sorted(s),
    ensures
        level_sorted(insert_in_order(s, x)),
        insert_in_order(s, x).last() == x || (s.len() > 0 && insert_in_order(s, x).last() == s.last()),
    decreases s.len(),
{
    if s.len() > 0 {
        let d = s.drop_last();
        if node_order(x, s.last()) < 0 {
            assert(level_sorted(d)) by {
                assert forall|i: int| 0 <= i < d.len() - 1 implies node_order(#[trigger] d[i], d[i + 1]) <= 0 by {
                    assert(d[i] == s[i] && d[i + 1] == s[i + 1]);
                }
            }
            lemma_insert_in_order_sorted(d, x);
            lemma_insert_in_order_multiset(d, x);
            let t = insert_in_order(d, x);
            let r = t.push(s.last());
            assert forall|i: int| 0 <= i < r.len() - 1 implies node_order(#[trigger] r[i], r[i + 1]) <= 0 by {
                if i < t.len() - 1 {
                    assert(r[i] == t[i] && r[i + 1] == t[i + 1]);
                } else {
                    assert(r[i] == t.last() && r[i + 1] == s.last());
                    if t.last() == x {
                    } else {
                        assert(d.len() > 0 && t.last() == d.last());
                        assert(d.last() == s[s.len() - 2]);
                    }
                }
            }
        } else {
            lemma_node_order_antisymmetric(x, s.last());
            let r = s.push(x);
            assert forall|i: int| 0 <= i < r.len() - 1 implies node_order(#[trigger] r[i], r[i + 1]) <= 0 by {
                if i < s.len() - 1 {
                    assert(r[i] == s[i] && r[i + 1] == s[i + 1]);
                }
            }
        }
    } else {
        assert(insert_in_order(s, x) =~= seq![x]);
    }
}

/// The sorted level is sorted.
pub proof fn lemma_sort_sorted(s: Seq<NodeView>)
    ensures
        level_sorted(sort_level_view(s)),
    decreases s.len(),
{
    if s.len() > 0 {
        lemma_sort_sorted(s.drop_last());
        lemma_insert_in_order_sorted(sort_level_view(s.drop_last()), s.last());
    }
}

/// Levels holding the same nodes hold the same elements.
proof fn lemma_same_nodes_contains(x: Seq<NodeView>, y: Seq<NodeView>, a: NodeView)
    requires
        x.to_multiset() == y.to_multiset(),
    ensures
        x.contains(a) <==> y.contains(a),
        x.len() == y.len(),
{
    x.to_multiset_ensures();
    y.to_multiset_ensures();
    assert(x.to_multiset().count(a) == y.to_multiset().count(a));
    assert(x.contains(a) <==> x.to_multiset().count(a) > 0);
    assert(y.contains(a) <==> y.to_multiset().count(a) > 0);
    assert(x.to_multiset().len() == y.to_multiset().len());
}

/// A level whose keys are distinct holds no node twice.
proof fn lemma_distinct_no_duplicates(s: Seq<NodeView>)
    requires
        level_keys_distinct(s),
    ensures
        s.no_duplicates(),
{
    assert forall|i: int, j: int| 0 <= i < s.len() && 0 <= j < s.len() && i != j implies s[i] != s[j] by {
        assert(!(s[i].path == s[j].path && s[i].is_dir == s[j].is_dir));
    }
}

/// Two levels holding the same nodes, one with distinct keys: the other has
/// distinct keys too.
pub proof fn lemma_same_nodes_distinct(x: Seq<NodeView>, y: Seq<NodeView>)
    requires
        level_keys_distinct(x),
        x.to_multiset() == y.to_multiset(),
    ensures
        level_keys_distinct(y),
{
    broadcast use vstd::multiset::group_multiset_axioms;
    lemma_distinct_no_duplicates(x);
    x.lemma_multiset_has_no_duplicates();
    y.lemma_multiset_has_no_duplicates_conv();
    assert forall|i: int, j: int| 0 <= i < y.len() && 0 <= j < y.len() && i != j implies
        !((#[trigger] y[i]).path == (#[trigger] y[j]).path && y[i].is_dir == y[j].is_dir) by {
        if y[i].path == y[j].path && y[i].is_dir == y[j].is_dir {
            assert(y.contains(y[i]) && y.contains(y[j]));
            lemma_same_nodes_contains(x, y, y[i]);
            lemma_same_nodes_contains(x, y, y[j]);
            let a = choose|a: int| 0 <= a < x.len() && x[a] == y[i];
            let b = choose|b: int| 0 <= b < x.len() && x[b] == y[j];
            assert(a == b);
            assert(y[i] == y[j]);
        }
    }
}

/// Two sorted levels holding the same nodes are equal, when those nodes
/// have distinct keys.
pub proof fn lemma_sorted_same_nodes_equal(x: Seq<NodeView>, y: Seq<NodeView>)
    requires
        level_sorted(x),
        level_sorted(y),
        level_keys_distinct(x),
        x.to_multiset() == y.to_multiset(),
    ensures
        x == y,
    decreases x.len(),
{
    broadcast use vstd::multiset::group_multiset_axioms;
    lemma_same_nodes_contains(x, y, x[0]);
    if x.len() > 0 {
        assert(y.contains(y[0]) && x.contains(x[0]));
        lemma_same_nodes_contains(x, y, y[0]);
        let m = choose|m: int| 0 <= m < x.len() && x[m] == y[0];
        let n = choose|n: int| 0 <= n < y.len() && y[n] == x[0];
        law_level_sorted_orders_every_pair(x, 0, m);
        law_level_sorted_orders_every_pair(y, 0, n);
        lemma_node_order_antisymmetric(x[0], y[0]);
        lemma_order_zero(x[0], y[0]);
        assert(x[m].path == x[0].path && x[m].is_dir == x[0].is_dir);
        assert(m == 0);
        assert(x[0] == y[0]);
        let x1 = x.drop_first();
        let y1 = y.drop_first();
        assert(x =~= seq![x[0]] + x1);
        assert(y =~= seq![y[0]] + y1);
        assert(x1 =~= x.remove(0));
        assert(y1 =~= y.remove(0));
        assert(x1.to_multiset() =~= x.to_multiset().remove(x[0]));
        assert(y1.to_multiset() =~= y.to_multiset().remove(y[0]));
        assert(level_sorted(x1)) by {
            assert forall|i: int| 0 <= i < x1.len() - 1 implies node_order(#[trigger] x1[i], x1[i + 1]) <= 0 by {
                assert(x1[i] == x[i + 1] && x1[i + 1] == x[i + 2]);
            }
        }
        assert(level_sorted(y1)) by {
            assert forall|i: int| 0 <= i < y1.len() - 1 implies node_order(#[trigger] y1[i], y1[i + 1]) <= 0 by {
                assert(y1[i] == y[i + 1] && y1[i + 1] == y[i + 2]);
            }
        }
        assert(level_keys_distinct(x1)) by {
            assert forall|i: int, j: int| 0 <= i < x1.len() && 0 <= j < x1.len() && i != j implies
                !((#[trigger] x1[i]).path == (#[trigger] x1[j]).path && x1[i].is_dir == x1[j].is_dir) by {
                assert(x1[i] == x[i + 1] && x1[j] == x[j + 1]);
            }
        }
        lemma_sorted_same_nodes_equal(x1, y1);
    }
}

/// Sorting a level depends only on which nodes it holds: two levels with the
/// same nodes, with distinct keys, sort alike.
pub proof fn lemma_sort_canonical(x: Seq<NodeView>, y: Seq<NodeView>)
    requires
        level_keys_distinct(x),
        x.to_multiset() == y.to_multiset(),
    ensures
        sort_level_view(x) == sort_level_view(y),
        level_keys_distinct(sort_level_view(x)),
{
    lemma_sort_multiset(x);
    lemma_sort_multiset(y);
    lemma_sort_sorted(x);
    lemma_sort_sorted(y);
    lemma_same_nodes_distinct(x, sort_level_view(x));
    lemma_sorted_same_nodes_equal(sort_level_view(x), sort_level_view(y));
}

/// Every level below `f[i..]` has distinct keys.
pub open spec fn distinct_below(f: Seq<NodeView>, i: int) -> bool
    decreases f, f.len() - i,
{
    if i < 0 || i >= f.len() {
        true
    } else {
        &&& level_keys_distinct(f[i].children)
        &&& distinct_below(f[i].children, 0)
        &&& distinct_below(f, i + 1)
    }
}

/// Every level of the tree `f` has distinct keys.
pub open spec fn tree_keys_distinct(f: Seq<NodeView>) -> bool {
    level_keys_distinct(f) && distinct_below(f, 0)
}

proof fn lemma_distinct_below(f: Seq<NodeView>, i: int)
    requires
        0 <= i,
    ensures
        distinct_below(f, i) <==> forall|j: int| i <= j < f.len() ==> tree_keys_distinct(#[trigger] f[j].children),
    decreases f.len() - i,
{
    if i < f.len() {
        lemma_distinct_below(f, i + 1);
        if forall|j: int| i <= j < f.len() ==> tree_keys_distinct(#[trigger] f[j].children) {
            assert(tree_keys_distinct(f[i].children));
            assert forall|j: int| i + 1 <= j < f.len() implies tree_keys_distinct(#[trigger] f[j].children) by {
            }
        }
    }
}

proof fn lemma_find_node_none(f: Seq<NodeView>, i: int, p: Seq<char>, dir_only: bool)
    requires
        0 <= i,
        find_node(f, i, p, dir_only) < 0,
    ensures
        forall|j: int| i <= j < f.len() ==> !((#[trigger] f[j]).path == p && (f[j].is_dir || !dir_only)),
    decreases f.len() - i,
{
    if i < f.len() {
        lemma_find_node_none(f, i + 1, p, dir_only);
    }
}

/// The multiset of a level after one node is replaced.
proof fn lemma_update_multiset(s: Seq<NodeView>, i: int, v: NodeView)
    requires
        0 <= i < s.len(),
    ensures
        s.update(i, v).to_multiset() =~= s.to_multiset().remove(s[i]).insert(v),
{
    broadcast use vstd::multiset::group_multiset_axioms;
    assert(s.update(i, v) =~= s.remove(i).insert(i, v));
    s.remove(i).to_multiset_ensures();
    s.to_multiset_ensures();
}

proof fn lemma_cs_pointwise(f: Seq<NodeView>)
    ensures
        children_sorted_from(f, 0).len() == f.len(),
        forall|j: int| 0 <= j < f.len() ==> #[trigger] children_sorted_from(f, 0)[j] == with_sorted_children(f[j]),
{
    lemma_children_sorted_from(f, 0);
    assert forall|j: int| 0 <= j < f.len() implies #[trigger] children_sorted_from(f, 0)[j] == with_sorted_children(f[j]) by {
        assert(children_sorted_from(f, 0)[j - 0] == with_sorted_children(f[j]));
    }
}

proof fn lemma_cs_push(f: Seq<NodeView>, m: NodeView)
    ensures
        children_sorted_from(f.push(m), 0) == children_sorted_from(f, 0).push(with_sorted_children(m)),
{
    lemma_cs_pointwise(f);
    lemma_cs_pointwise(f.push(m));
    assert(children_sorted_from(f.push(m), 0) =~= children_sorted_from(f, 0).push(with_sorted_children(m))) by {
        assert forall|j: int| 0 <= j < f.len() + 1 implies #[trigger] children_sorted_from(f.push(m), 0)[j]
            == children_sorted_from(f, 0).push(with_sorted_children(m))[j] by {
            assert(f.push(m)[j] == if j < f.len() { f[j] } else { m });
        }
    }
}

proof fn lemma_cs_update(f: Seq<NodeView>, k: int, m: NodeView)
    requires
        0 <= k < f.len(),
    ensures
        children_sorted_from(f.update(k, m), 0) == children_sorted_from(f, 0).update(k, with_sorted_children(m)),
{
    lemma_cs_pointwise(f);
    lemma_cs_pointwise(f.update(k, m));
    assert(children_sorted_from(f.update(k, m), 0) =~= children_sorted_from(f, 0).update(k, with_sorted_children(m))) by {
        assert forall|j: int| 0 <= j < f.len() implies #[trigger] children_sorted_from(f.update(k, m), 0)[j]
            == children_sorted_from(f, 0).update(k, with_sorted_children(m))[j] by {
        }
    }
}

/// Sorting the tree keeps every level's keys distinct, sorts nothing
/// further when done again, and leaves every directory's children sorted.
pub proof fn lemma_sort_forest_props(f: Seq<NodeView>)
    requires
        tree_keys_distinct(f),
    ensures
        level_keys_distinct(children_sorted_from(f, 0)),
        children_sorted_from(sort_forest(f), 0) == sort_forest(f),
        sort_forest(sort_forest(f)) == sort_forest(f),
        tree_keys_distinct(sort_forest(f)),
    decreases f, 2int,
{
    broadcast use vstd::multiset::group_multiset_axioms;
    let cs = children_sorted_from(f, 0);
    lemma_cs_pointwise(f);
    lemma_distinct_below(f, 0);
    assert(level_keys_distinct(cs)) by {
        assert forall|i: int, j: int| 0 <= i < cs.len() && 0 <= j < cs.len() && i != j implies
            !((#[trigger] cs[i]).path == (#[trigger] cs[j]).path && cs[i].is_dir == cs[j].is_dir) by {
            assert(cs[i] == with_sorted_children(f[i]) && cs[j] == with_sorted_children(f[j]));
            assert(!(f[i].path == f[j].path && f[i].is_dir == f[j].is_dir));
        }
    }
    assert forall|j: int| 0 <= j < f.len() && f[j].is_dir implies {
        &&& sort_forest(sort_forest(f[j].children)) == sort_forest(f[j].children)
        &&& tree_keys_distinct(sort_forest(f[j].children))
    } by {
        assert(tree_keys_distinct(f[j].children));
        lemma_sort_forest_props(f[j].children);
    }
    let sf = sort_forest(f);
    assert(sf == sort_level_view(cs));
    lemma_sort_multiset(cs);
    lemma_sort_canonical(cs, cs);
    lemma_cs_pointwise(sf);
    // Every node of the sorted level is one of `cs`, hence fixed by sorting
    // its children again.
    assert forall|i: int| 0 <= i < sf.len() implies {
        &&& #[trigger] with_sorted_children(sf[i]) == sf[i]
        &&& tree_keys_distinct(sf[i].children)
    } by {
        assert(sf.contains(sf[i]));
        lemma_same_nodes_contains(cs, sf, sf[i]);
        let j = choose|j: int| 0 <= j < cs.len() && cs[j] == sf[i];
        assert(cs[j] == with_sorted_children(f[j]));
        assert(tree_keys_distinct(f[j].children));
    }
    assert(children_sorted_from(sf, 0) =~= sf);
    assert(sort_forest(sf) == sort_level_view(children_sorted_from(sf, 0)));
    lemma_sort_canonical(cs, sf);
    assert(distinct_below(sf, 0)) by {
        lemma_distinct_below(sf, 0);
    }
}

/// A node of the sorted tree with path `p` of a kind `dir_only` asks for
/// exists exactly when one exists in the tree itself; a directory found is
/// the tree's own, with its children sorted.
proof fn lemma_find_in_sorted(f: Seq<NodeView>, p: Seq<char>, dir_only: bool)
    requires
        tree_keys_distinct(f),
    ensures
        (find_node(sort_forest(f), 0, p, dir_only) >= 0) == (find_node(f, 0, p, dir_only) >= 0),
        dir_only && find_node(f, 0, p, true) >= 0 ==> {
            let k = find_node(f, 0, p, true);
            let k2 = find_node(sort_forest(f), 0, p, true);
            &&& 0 <= k < f.len()
            &&& 0 <= k2 < sort_forest(f).len()
            &&& sort_forest(f)[k2] == with_sorted_children(f[k])
            &&& children_sorted_from(f, 0)[k] == with_sorted_children(f[k])
        },
{
    let cs = children_sorted_from(f, 0);
    let sf = sort_forest(f);
    lemma_cs_pointwise(f);
    lemma_sort_multiset(cs);
    lemma_find_node(f, 0, p, dir_only);
    lemma_find_node(sf, 0, p, dir_only);
    if find_node(f, 0, p, dir_only) >= 0 {
        let k = find_node(f, 0, p, dir_only);
        assert(cs.contains(cs[k]));
        lemma_same_nodes_contains(sf, cs, cs[k]);
        let k3 = choose|k3: int| 0 <= k3 < sf.len() && sf[k3] == cs[k];
        if find_node(sf, 0, p, dir_only) < 0 {
            lemma_find_node_none(sf, 0, p, dir_only);
            assert(sf[k3].path == p);
        }
        if dir_only {
            let k2 = find_node(sf, 0, p, true);
            assert(sf.contains(sf[k2]));
            lemma_same_nodes_contains(sf, cs, sf[k2]);
            let j = choose|j: int| 0 <= j < cs.len() && cs[j] == sf[k2];
            assert(cs[j].path == f[j].path && cs[j].is_dir == f[j].is_dir);
            assert(j == k);
        }
    } else {
        lemma_find_node_none(f, 0, p, dir_only);
        if find_node(sf, 0, p, dir_only) >= 0 {
            let k2 = find_node(sf, 0, p, dir_only);
            assert(sf.contains(sf[k2]));
            lemma_same_nodes_contains(sf, cs, sf[k2]);
            let j = choose|j: int| 0 <= j < cs.len() && cs[j] == sf[k2];
            assert(cs[j].path == f[j].path && cs[j].is_dir == f[j].is_dir);
        }
    }
}

/// Adding a chain of components to the sorted tree or to the tree itself
/// gives, once sorted, the same tree; and the keys of every level stay
/// distinct.
pub proof fn lemma_insert_chain_sorted(f: Seq<NodeView>, parent: Seq<char>, comps: Seq<Seq<char>>, e: Seq<(Seq<char>, bool)>)
    requires
        tree_keys_distinct(f),
    ensures
        sort_forest(insert_chain(sort_forest(f), parent, comps, e)) == sort_forest(insert_chain(f, parent, comps, e)),
        tree_keys_distinct(insert_chain(f, parent, comps, e)),
    decreases comps.len(),
{
    broadcast use vstd::multiset::group_multiset_axioms;
    let sf = sort_forest(f);
    let cs = children_sorted_from(f, 0);
    lemma_sort_forest_props(f);
    lemma_cs_pointwise(f);
    lemma_sort_multiset(cs);
    lemma_distinct_below(f, 0);
    if comps.len() == 0 {
        return;
    }
    let p = spec_join(parent, comps[0]);
    if comps.len() == 1 {
        lemma_find_in_sorted(f, p, false);
        if find_node(f, 0, p, false) < 0 {
            let fl = file_node_view(p, comps[0]);
            lemma_find_node_none(f, 0, p, false);
            lemma_cs_push(sf, fl);
            lemma_cs_push(f, fl);
            let x = cs.push(fl);
            assert(level_keys_distinct(x)) by {
                assert forall|a: int, b: int| 0 <= a < x.len() && 0 <= b < x.len() && a != b implies
                    !((#[trigger] x[a]).path == (#[trigger] x[b]).path && x[a].is_dir == x[b].is_dir) by {
                    if a < cs.len() {
                        assert(x[a] == cs[a] && cs[a].path == f[a].path);
                    }
                    if b < cs.len() {
                        assert(x[b] == cs[b] && cs[b].path == f[b].path);
                    }
                }
            }
            assert(x.to_multiset() =~= cs.to_multiset().insert(fl));
            assert(sf.push(fl).to_multiset() =~= sf.to_multiset().insert(fl));
            lemma_sort_canonical(x, sf.push(fl));
            let g = f.push(fl);
            assert(level_keys_distinct(g)) by {
                assert forall|a: int, b: int| 0 <= a < g.len() && 0 <= b < g.len() && a != b implies
                    !((#[trigger] g[a]).path == (#[trigger] g[b]).path && g[a].is_dir == g[b].is_dir) by {
                    assert(x[a].path == g[a].path && x[a].is_dir == g[a].is_dir);
                    assert(x[b].path == g[b].path && x[b].is_dir == g[b].is_dir);
                }
            }
            lemma_distinct_below(g, 0);
            assert(tree_keys_distinct(fl.children)) by {
                assert(fl.children =~= Seq::<NodeView>::empty());
                lemma_distinct_below(fl.children, 0);
            }
            assert forall|j: int| 0 <= j < g.len() implies tree_keys_distinct(#[trigger] g[j].children) by {
                if j < f.len() {
                    assert(g[j] == f[j]);
                }
            }
        }
        return;
    }
    let rest = comps.drop_first();
    lemma_find_in_sorted(f, p, true);
    if find_node(f, 0, p, true) >= 0 {
        let k = find_node(f, 0, p, true);
        let k2 = find_node(sf, 0, p, true);
        let ck = f[k].children;
        lemma_insert_chain_sorted(ck, p, rest, e);
        lemma_sort_forest_props(ck);
        let m1 = NodeView { children: insert_chain(ck, p, rest, e), ..f[k] };
        let m2 = NodeView { children: insert_chain(sf[k2].children, p, rest, e), ..sf[k2] };
        let n = with_sorted_children(m1);
        assert(with_sorted_children(m2) == n);
        lemma_cs_update(f, k, m1);
        lemma_cs_update(sf, k2, m2);
        let x = cs.update(k, n);
        let y = sf.update(k2, n);
        assert(children_sorted_from(sf, 0).update(k2, n) == y);
        lemma_update_multiset(cs, k, n);
        lemma_update_multiset(sf, k2, n);
        assert(level_keys_distinct(x)) by {
            assert forall|a: int, b: int| 0 <= a < x.len() && 0 <= b < x.len() && a != b implies
                !((#[trigger] x[a]).path == (#[trigger] x[b]).path && x[a].is_dir == x[b].is_dir) by {
                assert(x[a].path == cs[a].path && x[a].is_dir == cs[a].is_dir);
                assert(x[b].path == cs[b].path && x[b].is_dir == cs[b].is_dir);
            }
        }
        lemma_sort_canonical(x, y);
        let g = f.update(k, m1);
        assert(level_keys_distinct(g)) by {
            assert forall|a: int, b: int| 0 <= a < g.len() && 0 <= b < g.len() && a != b implies
                !((#[trigger] g[a]).path == (#[trigger] g[b]).path && g[a].is_dir == g[b].is_dir) by {
                assert(g[a].path == f[a].path && g[a].is_dir == f[a].is_dir);
                assert(g[b].path == f[b].path && g[b].is_dir == f[b].is_dir);
            }
        }
        lemma_distinct_below(g, 0);
        assert forall|j: int| 0 <= j < g.len() implies tree_keys_distinct(#[trigger] g[j].children) by {
            if j != k {
                assert(g[j] == f[j]);
            }
        }
    } else {
        let k2 = find_node(sf, 0, p, true);
        lemma_find_node_none(f, 0, p, true);
        lemma_insert_chain_sorted(Seq::empty(), p, rest, e);
        assert(tree_keys_distinct(Seq::<NodeView>::empty())) by {
            lemma_distinct_below(Seq::<NodeView>::empty(), 0);
        }
        let d = dir_node_view(p, comps[0], e, insert_chain(Seq::empty(), p, rest, e));
        lemma_cs_push(sf, d);
        lemma_cs_push(f, d);
        let x = cs.push(with_sorted_children(d));
        assert(level_keys_distinct(x)) by {
            assert forall|a: int, b: int| 0 <= a < x.len() && 0 <= b < x.len() && a != b implies
                !((#[trigger] x[a]).path == (#[trigger] x[b]).path && x[a].is_dir == x[b].is_dir) by {
                if a < cs.len() {
                    assert(x[a] == cs[a] && cs[a].path == f[a].path && cs[a].is_dir == f[a].is_dir);
                }
                if b < cs.len() {
                    assert(x[b] == cs[b] && cs[b].path == f[b].path && cs[b].is_dir == f[b].is_dir);
                }
            }
        }
        assert(x.to_multiset() =~= cs.to_multiset().insert(with_sorted_children(d)));
        assert(sf.push(with_sorted_children(d)).to_multiset() =~= sf.to_multiset().insert(with_sorted_children(d)));
        lemma_sort_canonical(x, sf.push(with_sorted_children(d)));
        let g = f.push(d);
        assert(level_keys_distinct(g)) by {
            assert forall|a: int, b: int| 0 <= a < g.len() && 0 <= b < g.len() && a != b implies
                !((#[trigger] g[a]).path == (#[trigger] g[b]).path && g[a].is_dir == g[b].is_dir) by {
                assert(x[a].path == g[a].path && x[a].is_dir == g[a].is_dir);
                assert(x[b].path == g[b].path && x[b].is_dir == g[b].is_dir);
            }
        }
        lemma_distinct_below(g, 0);
        assert forall|j: int| 0 <= j < g.len() implies tree_keys_distinct(#[trigger] g[j].children) by {
            if j < f.len() {
                assert(g[j] == f[j]);
            }
        }
    }
}

/// Adding one path keeps every level's keys distinct, and adding it to the
/// sorted tree or to the tree itself gives, once sorted, the same tree.
proof fn lemma_insert_path_step_sorted(f: Seq<NodeView>, root: Seq<char>, p: Seq<char>, e: Seq<(Seq<char>, bool)>)
    requires
        tree_keys_distinct(f),
    ensures
        sort_forest(insert_path_step(sort_forest(f), root, p, e)) == sort_forest(insert_path_step(f, root, p, e)),
        tree_keys_distinct(insert_path_step(f, root, p, e)),
{
    lemma_sort_forest_props(f);
    if crate::pathname::spec_is_markdown(p) {
        match crate::pathname::spec_relative_components(p, root) {
            Some(c) => if c.len() > 0 {
                lemma_insert_chain_sorted(f, root, c, e);
            },
            None => {},
        }
    }
}

pub proof fn lemma_insert_paths_distinct(f: Seq<NodeView>, root: Seq<char>, ps: Seq<Seq<char>>, e: Seq<(Seq<char>, bool)>, n: int)
    requires
        tree_keys_distinct(f),
    ensures
        tree_keys_distinct(insert_paths(f, root, ps, e, n)),
    decreases n,
{
    if n > 0 {
        lemma_insert_paths_distinct(f, root, ps, e, n - 1);
        lemma_insert_path_step_sorted(insert_paths(f, root, ps, e, n - 1), root, ps[n - 1], e);
    }
}

/// Adding paths to the sorted tree or to the tree itself gives, once
/// sorted, the same tree.
proof fn lemma_insert_paths_sorted(g: Seq<NodeView>, root: Seq<char>, ps: Seq<Seq<char>>, e: Seq<(Seq<char>, bool)>, n: int)
    requires
        tree_keys_distinct(g),
    ensures
        sort_forest(insert_paths(sort_forest(g), root, ps, e, n)) == sort_forest(insert_paths(g, root, ps, e, n)),
    decreases n,
{
    lemma_sort_forest_props(g);
    if n > 0 {
        lemma_insert_paths_sorted(g, root, ps, e, n - 1);
        let x1 = insert_paths(sort_forest(g), root, ps, e, n - 1);
        let x2 = insert_paths(g, root, ps, e, n - 1);
        lemma_insert_paths_distinct(sort_forest(g), root, ps, e, n - 1);
        lemma_insert_paths_distinct(g, root, ps, e, n - 1);
        lemma_insert_path_step_sorted(x1, root, ps[n - 1], e);
        lemma_insert_path_step_sorted(x2, root, ps[n - 1], e);
    }
}

/// Only the first `n` paths count.
proof fn lemma_insert_paths_prefix(f: Seq<NodeView>, root: Seq<char>, ps: Seq<Seq<char>>, qs: Seq<Seq<char>>, e: Seq<(Seq<char>, bool)>, n: int)
    requires
        0 <= n <= ps.len(),
        n <= qs.len(),
        forall|j: int| 0 <= j < n ==> ps[j] == qs[j],
    ensures
        insert_paths(f, root, ps, e, n) == insert_paths(f, root, qs, e, n),
    decreases n,
{
    if n > 0 {
        lemma_insert_paths_prefix(f, root, ps, qs, e, n - 1);
    }
}

/// Adding `a + b` is adding `a`, then `b`.
proof fn lemma_insert_paths_append(f: Seq<NodeView>, root: Seq<char>, a: Seq<Seq<char>>, b: Seq<Seq<char>>, e: Seq<(Seq<char>, bool)>, m: int)
    requires
        0 <= m <= b.len(),
    ensures
        insert_paths(f, root, a + b, e, a.len() + m)
            == insert_paths(insert_paths(f, root, a, e, a.len() as int), root, b, e, m),
    decreases m,
{
    if m == 0 {
        lemma_insert_paths_prefix(f, root, a + b, a, e, a.len() as int);
    } else {
        lemma_insert_paths_append(f, root, a, b, e, m - 1);
        assert((a + b)[a.len() + m - 1] == b[m - 1]);
    }
}

/// Feeding paths to the workspace tree in batches gives the tree that
/// feeding them at once gives: for every tree whose levels have distinct
/// keys (the empty tree among them) and all path lists `a` and `b`,
/// adding `a` and sorting, then adding `b` and sorting, is adding `a + b`
/// and sorting (as two calls of `insert_markdown_paths` do, and one).
pub proof fn law_batches_build_the_same_tree(
    f: Seq<NodeView>,
    root: Seq<char>,
    a: Seq<Seq<char>>,
    b: Seq<Seq<char>>,
    e: Seq<(Seq<char>, bool)>,
)
    requires
        tree_keys_distinct(f),
    ensures
        sort_forest(insert_paths(sort_forest(insert_paths(f, root, a, e, a.len() as int)), root, b, e, b.len() as int))
            == sort_forest(insert_paths(f, root, a + b, e, (a + b).len() as int)),
{
    let g = insert_paths(f, root, a, e, a.len() as int);
    lemma_insert_paths_distinct(f, root, a, e, a.len() as int);
    lemma_insert_paths_sorted(g, root, b, e, b.len() as int);
    lemma_insert_paths_append(f, root, a, b, e, b.len() as int);
}

/// The empty tree has distinct keys on every level.
pub proof fn lemma_empty_tree_distinct()
    ensures
        tree_keys_distinct(Seq::<NodeView>::empty()),
{
}

} // verus!
