//! Small decisions about tabs: dirtiness, titles, where a file is saved,
//! which tab comes next, and what closing asks for.

use vstd::prelude::*;
use crate::pathname::{
    file_name, is_markdown_file, last_index_of, lemma_last_index_of, md_chars, parent,
    spec_extension, spec_file_name, spec_is_markdown, spec_parent, spec_starts_with,
    starts_with,
};
use crate::state::{DiskState, FileTreeNode, TabId};
use crate::text::{cat2, str_eq};

verus! {

/// A tab is dirty when the editor's text differs from what was last saved.
pub fn dirty_for_source(saved_source: &str, current_source: &str) -> (r: bool)
    ensures
        r == (current_source@ != saved_source@),
{
    !str_eq(current_source, saved_source)
}

/// After a successful write the written text is the saved text and the tab
/// is clean.
pub fn apply_successful_save(saved_source: &mut String, dirty: &mut bool, current_source: String)
    ensures
        final(saved_source)@ == current_source@,
        !*final(dirty),
{
    *saved_source = current_source;
    *dirty = false;
}

/// Where Save As writes: the chosen path when it names a Markdown file,
/// else the chosen path with `.md` appended (an existing extension stays).
pub open spec fn spec_markdown_destination(p: Seq<char>) -> Seq<char> {
    if spec_is_markdown(p) {
        p
    } else {
        p + seq!['.', 'm', 'd']
    }
}

/// The file Save As writes for the chosen `path`.
pub fn markdown_destination(path: &str) -> (r: String)
    ensures
        r@ == spec_markdown_destination(path@),
{
    if is_markdown_file(path) {
        return path.to_string();
    }
    let r = cat2(path, ".md");
    proof { reveal_strlit(".md"); }
    r
}

/// The last `c` in `s + t` is the last one in `t`, when `t` has one, else
/// the last one in `s`.
proof fn lemma_last_index_of_append(s: Seq<char>, t: Seq<char>, c: char)
    ensures
        last_index_of(s + t, c) == (if last_index_of(t, c) >= 0 {
            s.len() + last_index_of(t, c)
        } else {
            last_index_of(s, c)
        }),
    decreases t.len(),
{
    if t.len() == 0 {
        assert(s + t =~= s);
    } else {
        assert((s + t).last() == t.last());
        if t.last() != c {
            assert((s + t).drop_last() =~= s + t.drop_last());
            lemma_last_index_of_append(s, t.drop_last(), c);
        }
    }
}

/// Save As always writes a Markdown file, and asking again for the file
/// it writes changes nothing: for every chosen path that names a file (it
/// is not empty and does not end in `/`), the destination is a Markdown
/// file and is its own destination.
pub proof fn law_markdown_destination(p: Seq<char>)
    requires
        p.len() > 0,
        p.last() != '/',
    ensures
        spec_is_markdown(spec_markdown_destination(p)),
        spec_markdown_destination(spec_markdown_destination(p)) == spec_markdown_destination(p),
{
    if !spec_is_markdown(p) {
        let t = seq!['.', 'm', 'd'];
        let q = p + t;
        lemma_last_index_of_append(p, t, '/');
        assert(last_index_of(t, '/') == -1) by {
            reveal_with_fuel(last_index_of, 4);
        }
        lemma_last_index_of(p, '/');
        let l = last_index_of(p, '/');
        assert(l < p.len() - 1);
        let raw = p.subrange(l + 1, p.len() as int);
        let name = q.subrange(l + 1, q.len() as int);
        assert(name =~= raw + t);
        assert(name.len() >= 4);
        assert(name != seq!['.'] && name != seq!['.', '.']) by {
            assert(name.len() != 1 && name.len() != 2);
        }
        assert(spec_file_name(q) == Some(name));
        lemma_last_index_of_append(raw, t, '.');
        assert(last_index_of(t, '.') == 0) by {
            reveal_with_fuel(last_index_of, 4);
        }
        assert(last_index_of(name, '.') == raw.len());
        assert(name.subrange(raw.len() as int + 1, name.len() as int) =~= md_chars());
        assert(spec_extension(q) == Some(md_chars()));
    }
}

/// The workspace to open for `path`: the path itself when it is a
/// directory; nothing when it lies inside the current workspace; else its
/// parent directory.
pub open spec fn spec_workspace_root_for_path(path: Seq<char>, is_dir: bool, current: Option<Seq<char>>) -> Option<Seq<char>> {
    if is_dir {
        Some(path)
    } else if current matches Some(root) && spec_starts_with(path, root) {
        None
    } else {
        spec_parent(path)
    }
}

/// The characters of an optional path.
pub open spec fn opt_view(p: Option<&str>) -> Option<Seq<char>> {
    match p {
        Some(s) => Some(s@),
        None => None,
    }
}

/// The characters of an optional owned path.
pub open spec fn opt_view_string(p: Option<String>) -> Option<Seq<char>> {
    match p {
        Some(s) => Some(s@),
        None => None,
    }
}

/// The workspace to open for `path` (`is_dir` is what the file system
/// reports of it).
pub fn workspace_root_for_path(path: &str, is_dir: bool, current_workspace: Option<&str>) -> (r: Option<String>)
    ensures
        match r {
            Some(s) => spec_workspace_root_for_path(path@, is_dir, opt_view(current_workspace)) == Some(s@),
            None => spec_workspace_root_for_path(path@, is_dir, opt_view(current_workspace)) is None,
        },
{
    if is_dir {
        return Some(path.to_string());
    }
    match current_workspace {
        Some(root) => {
            if starts_with(path, root) {
                return None;
            }
        },
        None => {},
    }
    parent(path)
}

/// A tab's title: the file name, or the whole path when it has none.
pub open spec fn spec_display_title(p: Seq<char>) -> Seq<char> {
    match spec_file_name(p) {
        Some(name) => name,
        None => p,
    }
}

/// The title of a tab showing `path`.
pub fn display_title(path: &str) -> (r: String)
    ensures
        r@ == spec_display_title(path@),
{
    match file_name(path) {
        Some(name) => name,
        None => path.to_string(),
    }
}

/// After Save As the tab shows `destination` under its file name.
pub fn apply_save_as_identity(path: &mut String, title: &mut String, destination: String)
    ensures
        final(path)@ == destination@,
        final(title)@ == spec_display_title(destination@),
{
    *title = display_title(destination.as_str());
    *path = destination;
}

/// What closing a tab does.
#[derive(Clone, Copy, Debug, PartialEq, Eq, Structural)]
pub enum CloseAction {
    Remove,
    RequestDecision,
}

/// A dirty tab is not closed before the user decides; a clean one is.
pub fn close_action(dirty: bool) -> (r: CloseAction)
    ensures
        r == (if dirty { CloseAction::RequestDecision } else { CloseAction::Remove }),
{
    if dirty {
        CloseAction::RequestDecision
    } else {
        CloseAction::Remove
    }
}

/// What closing the window does.
#[derive(Clone, Copy, Debug, PartialEq, Eq, Structural)]
pub enum WindowCloseAction {
    Allow,
    SaveAll,
}

/// The window closes at once when quitting was confirmed or nothing is
/// dirty; otherwise every dirty tab is saved first.
pub fn window_close_action(allow_quit: bool, has_dirty_tabs: bool) -> (r: WindowCloseAction)
    ensures
        r == (if allow_quit || !has_dirty_tabs { WindowCloseAction::Allow } else { WindowCloseAction::SaveAll }),
{
    if allow_quit || !has_dirty_tabs {
        WindowCloseAction::Allow
    } else {
        WindowCloseAction::SaveAll
    }
}

/// Which way tab navigation goes.
#[derive(Clone, Copy, Debug, PartialEq, Eq, Structural)]
pub enum TabDirection {
    Next,
    Previous,
}

/// Position of the first `t` in `tabs`, or -1.
pub open spec fn first_position(tabs: Seq<TabId>, t: TabId) -> int
    decreases tabs.len(),
{
    if tabs.len() == 0 {
        -1
    } else if tabs[0] == t {
        0
    } else {
        let r = first_position(tabs.drop_first(), t);
        if r < 0 {
            -1
        } else {
            r + 1
        }
    }
}

pub proof fn lemma_first_position(tabs: Seq<TabId>, t: TabId)
    ensures
        -1 <= first_position(tabs, t) < tabs.len(),
        first_position(tabs, t) >= 0 ==> tabs[first_position(tabs, t)] == t,
        forall|j: int| 0 <= j < tabs.len() && (first_position(tabs, t) < 0 || j < first_position(tabs, t)) ==> tabs[j] != t,
    decreases tabs.len(),
{
    if tabs.len() > 0 && tabs[0] != t {
        lemma_first_position(tabs.drop_first(), t);
        assert forall|j: int| 0 <= j < tabs.len() && (first_position(tabs, t) < 0 || j < first_position(tabs, t)) implies tabs[j] != t by {
            if j > 0 {
                assert(tabs.drop_first()[j - 1] == tabs[j]);
            }
        }
    }
}

/// The index navigation lands on, among `len` tabs, from position `cur`
/// (-1 when no tab is active).
pub open spec fn adjacent_index(len: int, cur: int, direction: TabDirection) -> int {
    match direction {
        TabDirection::Next => if cur >= 0 { (cur + 1) % len } else { 0 },
        TabDirection::Previous => if cur > 0 { cur - 1 } else { len - 1 },
    }
}

/// Navigation lands inside the tab strip.
pub proof fn lemma_adjacent_in_range(len: int, cur: int, direction: TabDirection)
    requires
        len > 0,
        -1 <= cur < len,
    ensures
        0 <= adjacent_index(len, cur, direction) < len,
{
    if cur >= 0 {
        assert(0 <= (cur + 1) % len < len) by (nonlinear_arith)
            requires
                len > 0,
        ;
    }
}

/// The tab navigation selects: the next or previous one, wrapping around;
/// without an active tab, the first (going forward) or the last.
pub open spec fn spec_adjacent_tab(tabs: Seq<TabId>, active: Option<TabId>, direction: TabDirection) -> Option<TabId> {
    if tabs.len() == 0 {
        None
    } else {
        let cur = match active {
            Some(a) => first_position(tabs, a),
            None => -1,
        };
        Some(tabs[adjacent_index(tabs.len() as int, cur, direction)])
    }
}

fn position_of(tabs: &[TabId], t: TabId) -> (r: Option<usize>)
    ensures
        match r {
            Some(i) => i == first_position(tabs@, t) && i < tabs@.len(),
            None => first_position(tabs@, t) < 0,
        },
{
    proof { lemma_first_position(tabs@, t); }
    let mut i: usize = 0;
    while i < tabs.len()
        invariant
            0 <= i <= tabs@.len(),
            forall|j: int| 0 <= j < i ==> tabs@[j] != t,
            first_position(tabs@, t) < 0 || i <= first_position(tabs@, t),
        decreases tabs@.len() - i,
    {
        proof { lemma_first_position(tabs@, t); }
        if tabs[i] == t {
            return Some(i);
        }
        i = i + 1;
    }
    proof {
        if first_position(tabs@, t) >= 0 {
            assert(tabs@[first_position(tabs@, t)] == t);
        }
    }
    None
}

/// The tab next to the active one in `direction`.
pub fn adjacent_tab_id(tabs: &[TabId], active_tab: Option<TabId>, direction: TabDirection) -> (r: Option<TabId>)
    ensures
        r == spec_adjacent_tab(tabs@, active_tab, direction),
{
    if tabs.len() == 0 {
        return None;
    }
    let current = match active_tab {
        Some(active) => position_of(tabs, active),
        None => None,
    };
    let len = tabs.len();
    let index = match (current, direction) {
        (Some(index), TabDirection::Next) => (index + 1) % len,
        (Some(0), TabDirection::Previous) | (None, TabDirection::Previous) => len - 1,
        (Some(index), TabDirection::Previous) => index - 1,
        (None, TabDirection::Next) => 0,
    };
    Some(tabs[index])
}

proof fn lemma_first_position_distinct(tabs: Seq<TabId>, i: int)
    requires
        0 <= i < tabs.len(),
        forall|a: int, b: int| 0 <= a < b < tabs.len() ==> tabs[a] != tabs[b],
    ensures
        first_position(tabs, tabs[i]) == i,
{
    lemma_first_position(tabs, tabs[i]);
    let f = first_position(tabs, tabs[i]);
    if f >= 0 && f != i {
        assert(tabs[f] == tabs[i]);
    }
}

/// Going to the next tab and then to the previous one comes back to where
/// it started, and so does the reverse, for every active tab of a tab
/// strip in which no tab appears twice.
pub proof fn law_adjacent_tabs_invert(tabs: Seq<TabId>, t: TabId)
    requires
        forall|a: int, b: int| 0 <= a < b < tabs.len() ==> tabs[a] != tabs[b],
        tabs.contains(t),
    ensures
        spec_adjacent_tab(tabs, spec_adjacent_tab(tabs, Some(t), TabDirection::Next), TabDirection::Previous) == Some(t),
        spec_adjacent_tab(tabs, spec_adjacent_tab(tabs, Some(t), TabDirection::Previous), TabDirection::Next) == Some(t),
{
    let n = tabs.len() as int;
    let i = choose|i: int| 0 <= i < tabs.len() && tabs[i] == t;
    lemma_first_position_distinct(tabs, i);
    let j = if i + 1 < n { i + 1 } else { 0 };
    assert((i + 1) % n == j) by (nonlinear_arith)
        requires
            0 <= i < n,
            j == (if i + 1 < n { i + 1 } else { 0 }),
    ;
    lemma_first_position_distinct(tabs, j);
    let k = if i > 0 { i - 1 } else { n - 1 };
    lemma_first_position_distinct(tabs, k);
    assert((k + 1) % n == i) by (nonlinear_arith)
        requires
            0 <= i < n,
            k == (if i > 0 { i - 1 } else { n - 1 }),
    ;
}

/// Whether an autosave may run: autosave is on, the tab is dirty, has a
/// file, and no unresolved external change blocks it.
pub fn autosave_is_eligible(autosave_enabled: bool, dirty: bool, autosave_blocked: bool, path_is_empty: bool) -> (r: bool)
    ensures
        r == (autosave_enabled && dirty && !autosave_blocked && !path_is_empty),
{
    autosave_enabled && dirty && !autosave_blocked && !path_is_empty
}

/// Whether Save All writes a tab: it is dirty and no unresolved external
/// change blocks it.
pub fn save_all_tab_is_writable(dirty: bool, autosave_blocked: bool) -> (r: bool)
    ensures
        r == (dirty && !autosave_blocked),
{
    dirty && !autosave_blocked
}

/// A tab whose file was deleted keeps its text and counts as unsaved.
pub fn mark_deleted(dirty: &mut bool, disk_state: &mut DiskState)
    ensures
        *final(dirty),
        *final(disk_state) == DiskState::Deleted,
{
    *dirty = true;
    *disk_state = DiskState::Deleted;
}

/// How the user resolved an external conflict.
#[derive(Clone, Copy, Debug, PartialEq, Eq, Structural)]
pub enum ConflictDecision {
    KeepMine,
}

/// Keeping the local text leaves the tab in conflict with the disk but lets
/// it be saved again.
pub fn apply_conflict_decision(disk_state: &mut DiskState, autosave_blocked: &mut bool, decision: ConflictDecision)
    ensures
        *final(disk_state) == DiskState::Conflict,
        decision == ConflictDecision::KeepMine ==> !*final(autosave_blocked),
{
    *disk_state = DiskState::Conflict;
    match decision {
        ConflictDecision::KeepMine => *autosave_blocked = false,
    }
}

/// Opening a workspace sets its root and tree and touches nothing else.
pub fn apply_workspace_state(
    workspace_root: &mut Option<String>,
    file_tree: &mut Vec<FileTreeNode>,
    root: String,
    tree: Vec<FileTreeNode>,
)
    ensures
        *final(workspace_root) == Some(root),
        *final(file_tree) == tree,
{
    *workspace_root = Some(root);
    *file_tree = tree;
}

/// Two paths overlap when one lies inside (or is) the other.
pub open spec fn spec_paths_overlap(left: Seq<char>, right: Seq<char>) -> bool {
    left == right || spec_starts_with(left, right) || spec_starts_with(right, left)
}

/// Whether `left` and `right` overlap.
pub fn paths_overlap(left: &str, right: &str) -> (r: bool)
    ensures
        r == spec_paths_overlap(left@, right@),
{
    str_eq(left, right) || starts_with(left, right) || starts_with(right, left)
}

} // verus!
