//! The application's state types: tabs, disk state, the file tree, modals
//! and notifications.

use vstd::prelude::*;
use crate::config::recent::RecentFiles;
use crate::text::{ascii_lower, chars_of, to_ascii_lower};

verus! {

/// Identity of an editor tab; never reused within one session.
#[derive(Clone, Copy, Debug, Default, PartialEq, Eq, Hash, PartialOrd, Ord, Structural)]
pub struct TabId(pub u64);

/// How a tab's file relates to the file on disk.
#[derive(Clone, Copy, Debug, PartialEq, Eq, Structural)]
pub enum DiskState {
    Synced,
    ModifiedExternally,
    Deleted,
    Conflict,
}

/// What was last observed of a file on disk. `modified` is the modification
/// time in nanoseconds since the Unix epoch, when the platform reports one.
#[derive(Clone, Copy, Debug, Default, PartialEq, Eq, Structural)]
pub struct DiskVersion {
    pub exists: bool,
    pub modified: Option<i128>,
    pub len: u64,
    pub digest: u64,
}

impl DiskVersion {
    /// The version of a file that does not exist.
    pub fn missing() -> (r: DiskVersion)
        ensures
            r == (DiskVersion { exists: false, modified: None, len: 0, digest: 0 }),
    {
        DiskVersion { exists: false, modified: None, len: 0, digest: 0 }
    }
}

/// One entry of the workspace tree: a Markdown file, or a directory with
/// Markdown descendants (its name ends in `/`).
#[derive(Debug, PartialEq, Eq)]
pub struct FileTreeNode {
    pub path: String,
    pub name: String,
    pub is_dir: bool,
    pub expanded: bool,
    pub children: Vec<FileTreeNode>,
}

/// The abstract content of a tree node.
pub ghost struct NodeView {
    pub path: Seq<char>,
    pub name: Seq<char>,
    pub is_dir: bool,
    pub expanded: bool,
    pub children: Seq<NodeView>,
}

/// The abstract content of a sequence of nodes.
pub open spec fn forest_view(nodes: Seq<FileTreeNode>) -> Seq<NodeView>
    decreases nodes, 0int,
{
    if nodes.len() == 0 {
        Seq::empty()
    } else {
        seq![node_view(nodes[0])] + forest_view(nodes.drop_first())
    }
}

/// The abstract content of one node.
pub open spec fn node_view(n: FileTreeNode) -> NodeView
    decreases n, 1int,
{
    NodeView {
        path: n.path@,
        name: n.name@,
        is_dir: n.is_dir,
        expanded: n.expanded,
        children: forest_view(n.children@),
    }
}

/// The node reached from the level `f` by the positions `ip`, one per
/// level, going down only through directories (and, when `expanded_only`,
/// only through expanded ones); none when the positions lead nowhere. Its
/// ancestors are the `ip.len() - 1` nodes passed on the way.
pub open spec fn node_at(f: Seq<NodeView>, ip: Seq<int>, expanded_only: bool) -> Option<NodeView>
    decreases ip.len(),
{
    if ip.len() == 0 || ip[0] < 0 || ip[0] >= f.len() {
        None
    } else if ip.len() == 1 {
        Some(f[ip[0]])
    } else if f[ip[0]].is_dir && (f[ip[0]].expanded || !expanded_only) {
        node_at(f[ip[0]].children, ip.drop_first(), expanded_only)
    } else {
        None
    }
}

pub proof fn lemma_forest_view(nodes: Seq<FileTreeNode>)
    ensures
        forest_view(nodes).len() == nodes.len(),
        forall|i: int| 0 <= i < nodes.len() ==> #[trigger] forest_view(nodes)[i] == node_view(nodes[i]),
    decreases nodes.len(),
{
    if nodes.len() > 0 {
        lemma_forest_view(nodes.drop_first());
        assert forall|i: int| 0 <= i < nodes.len() implies #[trigger] forest_view(nodes)[i] == node_view(nodes[i]) by {
            if i > 0 {
                assert(nodes.drop_first()[i - 1] == nodes[i]);
            }
        }
    }
}

/// Two node sequences with the same views element by element have the same
/// view.
pub proof fn lemma_forest_view_pointwise(a: Seq<FileTreeNode>, b: Seq<FileTreeNode>)
    requires
        a.len() == b.len(),
        forall|i: int| 0 <= i < a.len() ==> node_view(a[i]) == node_view(b[i]),
    ensures
        forest_view(a) == forest_view(b),
{
    lemma_forest_view(a);
    lemma_forest_view(b);
    assert(forest_view(a) =~= forest_view(b));
}

impl FileTreeNode {
    /// A deep copy of this node.
    pub fn copy_node(&self) -> (r: FileTreeNode)
        ensures
            node_view(r) == node_view(*self),
        decreases self,
    {
        let mut children: Vec<FileTreeNode> = Vec::new();
        let mut i: usize = 0;
        while i < self.children.len()
            invariant
                0 <= i <= self.children@.len(),
                children@.len() == i,
                forall|j: int| 0 <= j < i ==> node_view(children@[j]) == node_view(self.children@[j]),
            decreases self.children@.len() - i,
        {
            assert(decreases_to!(self => self.children@[i as int]));
            let c = self.children[i].copy_node();
            children.push(c);
            i = i + 1;
        }
        proof {
            lemma_forest_view_pointwise(children@, self.children@);
        }
        FileTreeNode {
            path: self.path.clone(),
            name: self.name.clone(),
            is_dir: self.is_dir,
            expanded: self.expanded,
            children,
        }
    }
}

impl Clone for FileTreeNode {
    fn clone(&self) -> (r: Self)
        ensures
            node_view(r) == node_view(*self),
    {
        self.copy_node()
    }
}

/// The library's part of an editor tab: everything but the editor widget,
/// which the application keeps by `id`.
#[derive(Debug)]
pub struct EditorTab {
    pub id: TabId,
    pub path: String,
    pub title: String,
    pub saved_source: String,
    pub disk_version: DiskVersion,
    pub dirty: bool,
    pub disk_state: DiskState,
    pub autosave_generation: u64,
    pub autosave_blocked: bool,
}

/// The application state that rendering reads.
#[derive(Debug)]
pub struct AppState {
    pub workspace_root: Option<String>,
    pub sidebar_visible: bool,
    pub file_tree: Vec<FileTreeNode>,
    pub tabs: Vec<EditorTab>,
    pub active_tab: Option<TabId>,
    pub recent_files: RecentFiles,
    pub auto_save_enabled: bool,
}

/// A decision the user is asked for.
#[derive(Clone, Copy, Debug, PartialEq, Eq, Structural)]
pub enum Modal {
    CloseTab(TabId),
    ExternalConflict(TabId),
    DeletedFile(TabId),
    Shutdown,
}

#[derive(Clone, Copy, Debug, PartialEq, Eq, Structural)]
pub enum NotificationKind {
    Error,
    Success,
}

/// A message shown to the user.
#[derive(Clone, Debug, PartialEq, Eq)]
pub struct Notification {
    pub message: String,
    pub kind: NotificationKind,
}

impl Notification {
    /// An error notification with the given text.
    pub fn error(message: String) -> (r: Notification)
        ensures
            r.message@ == message@,
            r.kind == NotificationKind::Error,
    {
        Notification { message, kind: NotificationKind::Error }
    }

    /// A success notification with the given text.
    pub fn success(message: &str) -> (r: Notification)
        ensures
            r.message@ == message@,
            r.kind == NotificationKind::Success,
    {
        Notification { message: message.to_string(), kind: NotificationKind::Success }
    }
}

// ----- ordering of tree nodes -----

/// Three-way lexicographic comparison of two integer sequences: -1, 0 or 1.
pub open spec fn lex_order(a: Seq<int>, b: Seq<int>) -> int
    decreases a.len(),
{
    if a.len() == 0 {
        if b.len() == 0 {
            0
        } else {
            -1
        }
    } else if b.len() == 0 {
        1
    } else if a[0] < b[0] {
        -1
    } else if a[0] > b[0] {
        1
    } else {
        lex_order(a.drop_first(), b.drop_first())
    }
}

pub proof fn lemma_lex_order_antisymmetric(a: Seq<int>, b: Seq<int>)
    ensures
        lex_order(a, b) == -lex_order(b, a),
        -1 <= lex_order(a, b) <= 1,
    decreases a.len(),
{
    if a.len() > 0 && b.len() > 0 && a[0] == b[0] {
        lemma_lex_order_antisymmetric(a.drop_first(), b.drop_first());
    }
}

pub proof fn lemma_lex_order_transitive(a: Seq<int>, b: Seq<int>, c: Seq<int>)
    requires
        lex_order(a, b) <= 0,
        lex_order(b, c) <= 0,
    ensures
        lex_order(a, c) <= 0,
        lex_order(a, b) < 0 || lex_order(b, c) < 0 ==> lex_order(a, c) < 0,
    decreases a.len(),
{
    lemma_lex_order_antisymmetric(a, b);
    lemma_lex_order_antisymmetric(b, c);
    lemma_lex_order_antisymmetric(a, c);
    if a.len() > 0 && b.len() > 0 && c.len() > 0 && a[0] == b[0] && b[0] == c[0] {
        lemma_lex_order_transitive(a.drop_first(), b.drop_first(), c.drop_first());
    }
}

pub proof fn lemma_lex_order_zero_equal(a: Seq<int>, b: Seq<int>)
    requires
        lex_order(a, b) == 0,
    ensures
        a == b,
    decreases a.len(),
{
    if a.len() > 0 && b.len() > 0 {
        lemma_lex_order_zero_equal(a.drop_first(), b.drop_first());
        assert(a =~= seq![a[0]] + a.drop_first());
        assert(b =~= seq![b[0]] + b.drop_first());
    }
}

/// The sort key of a name: its ASCII-lower-cased characters.
pub open spec fn name_key(name: Seq<char>) -> Seq<int> {
    name.map_values(|c: char| ascii_lower(c) as int)
}

/// The sort key of a path: its characters, with the separator below every
/// other character, so that the order is the component-wise order of paths.
pub open spec fn path_key(path: Seq<char>) -> Seq<int> {
    path.map_values(|c: char| if c == '/' { -1int } else { (c as u32) as int })
}

/// Three-way comparison of tree nodes: directories first, then names
/// without regard to ASCII case, then full paths.
pub open spec fn node_order(a: NodeView, b: NodeView) -> int {
    if a.is_dir && !b.is_dir {
        -1
    } else if !a.is_dir && b.is_dir {
        1
    } else if lex_order(name_key(a.name), name_key(b.name)) != 0 {
        lex_order(name_key(a.name), name_key(b.name))
    } else {
        lex_order(path_key(a.path), path_key(b.path))
    }
}

pub proof fn lemma_node_order_antisymmetric(a: NodeView, b: NodeView)
    ensures
        node_order(a, b) == -node_order(b, a),
{
    lemma_lex_order_antisymmetric(name_key(a.name), name_key(b.name));
    lemma_lex_order_antisymmetric(path_key(a.path), path_key(b.path));
}

pub proof fn lemma_node_order_transitive(a: NodeView, b: NodeView, c: NodeView)
    requires
        node_order(a, b) <= 0,
        node_order(b, c) <= 0,
    ensures
        node_order(a, c) <= 0,
{
    let (na, nb, nc) = (name_key(a.name), name_key(b.name), name_key(c.name));
    let (pa, pb, pc) = (path_key(a.path), path_key(b.path), path_key(c.path));
    lemma_lex_order_antisymmetric(na, nb);
    lemma_lex_order_antisymmetric(nb, nc);
    lemma_lex_order_antisymmetric(na, nc);
    lemma_lex_order_antisymmetric(pa, pb);
    lemma_lex_order_antisymmetric(pb, pc);
    lemma_lex_order_antisymmetric(pa, pc);
    if a.is_dir == b.is_dir && b.is_dir == c.is_dir {
        if lex_order(na, nb) <= 0 && lex_order(nb, nc) <= 0 {
            lemma_lex_order_transitive(na, nb, nc);
            if lex_order(na, nb) == 0 {
                lemma_lex_order_zero_equal(na, nb);
            }
            if lex_order(nb, nc) == 0 {
                lemma_lex_order_zero_equal(nb, nc);
            }
            if lex_order(na, nb) == 0 && lex_order(nb, nc) == 0 {
                lemma_lex_order_transitive(pa, pb, pc);
            }
        }
    }
}

fn lex_order_vec(a: &Vec<i64>, b: &Vec<i64>) -> (r: i8)
    ensures
        r == lex_order(a@.map_values(|x: i64| x as int), b@.map_values(|x: i64| x as int)),
{
    let ghost sa = a@.map_values(|x: i64| x as int);
    let ghost sb = b@.map_values(|x: i64| x as int);
    let mut i: usize = 0;
    assert(sa.subrange(0, sa.len() as int) =~= sa);
    assert(sb.subrange(0, sb.len() as int) =~= sb);
    while i < a.len() && i < b.len()
        invariant
            0 <= i <= a@.len(),
            i <= b@.len(),
            sa == a@.map_values(|x: i64| x as int),
            sb == b@.map_values(|x: i64| x as int),
            lex_order(sa, sb) == lex_order(sa.subrange(i as int, sa.len() as int), sb.subrange(i as int, sb.len() as int)),
        decreases a@.len() - i,
    {
        let ghost ra = sa.subrange(i as int, sa.len() as int);
        let ghost rb = sb.subrange(i as int, sb.len() as int);
        assert(ra[0] == a@[i as int] as int);
        assert(rb[0] == b@[i as int] as int);
        if a[i] < b[i] {
            return -1;
        }
        if a[i] > b[i] {
            return 1;
        }
        assert(ra.drop_first() =~= sa.subrange(i + 1, sa.len() as int));
        assert(rb.drop_first() =~= sb.subrange(i + 1, sb.len() as int));
        i = i + 1;
    }
    let ghost ra = sa.subrange(i as int, sa.len() as int);
    let ghost rb = sb.subrange(i as int, sb.len() as int);
    if i < a.len() {
        assert(rb.len() == 0 && ra.len() > 0);
        1
    } else if i < b.len() {
        assert(ra.len() == 0 && rb.len() > 0);
        -1
    } else {
        assert(ra.len() == 0 && rb.len() == 0);
        0
    }
}

fn name_key_vec(name: &str) -> (r: Vec<i64>)
    ensures
        r@.map_values(|x: i64| x as int) == name_key(name@),
{
    let v = chars_of(name);
    let mut r: Vec<i64> = Vec::new();
    let mut i: usize = 0;
    while i < v.len()
        invariant
            0 <= i <= v@.len(),
            r@.len() == i,
            forall|j: int| 0 <= j < i ==> r@[j] as int == ascii_lower(v@[j]) as int,
        decreases v@.len() - i,
    {
        let c = to_ascii_lower(v[i]);
        r.push(c as u32 as i64);
        i = i + 1;
    }
    assert(r@.map_values(|x: i64| x as int) =~= name_key(name@));
    r
}

fn path_key_vec(path: &str) -> (r: Vec<i64>)
    ensures
        r@.map_values(|x: i64| x as int) == path_key(path@),
{
    let v = chars_of(path);
    let mut r: Vec<i64> = Vec::new();
    let mut i: usize = 0;
    while i < v.len()
        invariant
            0 <= i <= v@.len(),
            r@.len() == i,
            forall|j: int|
                0 <= j < i ==> r@[j] as int == (if v@[j] == '/' { -1int } else { (v@[j] as u32) as int }),
        decreases v@.len() - i,
    {
        let c = v[i];
        if c == '/' {
            r.push(-1);
        } else {
            r.push(c as u32 as i64);
        }
        i = i + 1;
    }
    assert(r@.map_values(|x: i64| x as int) =~= path_key(path@));
    r
}

/// The order of paths, component by component (std's `Path` order, for
/// paths without repeated or trailing separators).
pub open spec fn path_order(a: Seq<char>, b: Seq<char>) -> int {
    lex_order(path_key(a), path_key(b))
}

/// Paths in the same place of the order are the same path.
pub proof fn lemma_path_order_zero_equal(a: Seq<char>, b: Seq<char>)
    requires
        path_order(a, b) == 0,
    ensures
        a == b,
{
    lemma_lex_order_zero_equal(path_key(a), path_key(b));
    assert(path_key(a).len() == a.len() && path_key(b).len() == b.len());
    assert forall|i: int| 0 <= i < a.len() implies a[i] == b[i] by {
        let (x, y) = (a[i], b[i]);
        assert(path_key(a)[i] == path_key(b)[i]);
        vstd::utf8::char_u32_cast(x, x as u32);
        vstd::utf8::char_u32_cast(y, y as u32);
    }
    assert(a =~= b);
}

/// Compares two paths in the order of `path_order`: -1, 0 or 1.
pub fn compare_paths(a: &str, b: &str) -> (r: i8)
    ensures
        r == path_order(a@, b@),
{
    lex_order_vec(&path_key_vec(a), &path_key_vec(b))
}

/// Whether `a` sorts strictly before `b`: directories first, then names
/// compared without regard to ASCII case, then full paths.
pub fn node_precedes(a: &FileTreeNode, b: &FileTreeNode) -> (r: bool)
    ensures
        r == (node_order(node_view(*a), node_view(*b)) < 0),
{
    if a.is_dir && !b.is_dir {
        return true;
    }
    if !a.is_dir && b.is_dir {
        return false;
    }
    let c = lex_order_vec(&name_key_vec(&a.name), &name_key_vec(&b.name));
    if c != 0 {
        return c < 0;
    }
    lex_order_vec(&path_key_vec(&a.path), &path_key_vec(&b.path)) < 0
}

} // verus!
