//! The workspace tree built from a scan.

use vstd::prelude::*;
use std::collections::VecDeque;
use crate::file::{FileError, IoErrorKind, is_io_error};
use crate::pathname::{is_markdown_file, spec_is_markdown, views};
use crate::state::{FileTreeNode, forest_view};
use crate::ui::file_tree::{entries_at, insert_markdown_paths, insert_paths, sort_forest, sorted_at};

verus! {

/// The workspace tree of the Markdown files `files` found below `root`:
/// every file with the directories above it (all expanded), each level
/// sorted with directories first.
pub fn scan_markdown_tree(root: &str, files: Vec<String>) -> (r: Vec<FileTreeNode>)
    ensures
        forest_view(r@) == sort_forest(insert_paths(Seq::empty(), root@, views(files@), Seq::empty(), files@.len() as int)),
        sorted_at(forest_view(r@), 0),
        entries_at(forest_view(r@), 0) == entries_at(
            insert_paths(Seq::empty(), root@, views(files@), Seq::empty(), files@.len() as int),
            0,
        ),
{
    let mut nodes: Vec<FileTreeNode> = Vec::new();
    let expansion: Vec<(String, bool)> = Vec::new();
    assert(forest_view(nodes@) =~= Seq::empty());
    assert(crate::ui::file_tree::expansion_view(expansion@) =~= Seq::empty());
    insert_markdown_paths(&mut nodes, root, files, &expansion);
    nodes
}

/// A read during the scan failed with `kind` at `path`. A path that
/// vanished meanwhile is skipped (`None`) when `skip_missing`; any other
/// failure ends the scan with its error.
pub fn scan_failure(path: &str, skip_missing: bool, kind: IoErrorKind) -> (r: Option<FileError>)
    ensures
        r is None <==> (skip_missing && kind is NotFound),
        r matches Some(e) ==> is_io_error(e, path@, "scan", kind),
{
    match kind {
        IoErrorKind::NotFound => if skip_missing {
            return None;
        },
        _ => {},
    }
    Some(FileError::from_io(path, "scan", kind))
}

/// The walk over a workspace's directories, breadth first: the root and
/// the directories still to be listed, in order.
pub struct ScanWalk {
    root: String,
    pending: VecDeque<String>,
}

impl View for ScanWalk {
    type V = (Seq<char>, Seq<Seq<char>>);

    closed spec fn view(&self) -> (Seq<char>, Seq<Seq<char>>) {
        (self.root@, views(self.pending@))
    }
}

impl ScanWalk {
    /// A walk that starts at `root`.
    pub fn new(root: String) -> (r: ScanWalk)
        ensures
            r@.0 == root@,
            r@.1 == seq![root@],
    {
        let mut pending: VecDeque<String> = VecDeque::new();
        let first = root.clone();
        pending.push_back(first);
        let r = ScanWalk { root, pending };
        assert(views(r.pending@) =~= seq![root@]);
        r
    }

    /// The next directory to list, first come first served; `None` when
    /// the walk is done.
    pub fn next_directory(&mut self) -> (r: Option<String>)
        ensures
            final(self)@.0 == old(self)@.0,
            old(self)@.1.len() == 0 ==> r is None && final(self)@ == old(self)@,
            old(self)@.1.len() > 0 ==> (r matches Some(d) && d@ == old(self)@.1[0]
                && final(self)@.1 == old(self)@.1.drop_first()),
    {
        let ghost before = self.pending@;
        let r = self.pending.pop_front();
        proof {
            if before.len() > 0 {
                assert(self.pending@ =~= before.drop_first());
                assert(views(self.pending@) =~= views(before).drop_first());
            }
        }
        r
    }

    /// Listing `directory` failed with `kind`: a subdirectory that vanished
    /// is skipped (`None`); the root that cannot be listed, and any other
    /// failure, end the scan with the error.
    pub fn listing_failed(&self, directory: &str, kind: IoErrorKind) -> (r: Option<FileError>)
        ensures
            r is None <==> (directory@ != self@.0 && kind is NotFound),
            r matches Some(e) ==> is_io_error(e, directory@, "scan", kind),
    {
        let is_root = crate::text::str_eq(directory, self.root.as_str());
        scan_failure(directory, !is_root, kind)
    }

    /// An entry `path` of the directory being listed: a directory waits
    /// its turn to be listed; a Markdown file is handed out; anything else
    /// is passed over.
    pub fn visit_entry(&mut self, path: String, is_dir: bool, is_file: bool) -> (r: Option<String>)
        ensures
            final(self)@.0 == old(self)@.0,
            is_dir ==> r is None && final(self)@.1 == old(self)@.1.push(path@),
            !is_dir && is_file && spec_is_markdown(path@) ==> (r matches Some(f) && f@ == path@
                && final(self)@ == old(self)@),
            !is_dir && !(is_file && spec_is_markdown(path@)) ==> r is None && final(self)@ == old(self)@,
    {
        if is_dir {
            let ghost before = self.pending@;
            let ghost p = path@;
            self.pending.push_back(path);
            assert(views(self.pending@) =~= views(before).push(p));
            None
        } else if is_file && is_markdown_file(path.as_str()) {
            Some(path)
        } else {
            None
        }
    }
}

} // verus!
