//! The bookkeeping of a background workspace scan: which of the worker's
//! messages belong to the current scan, which scanned paths wait to join
//! the tree, and when the scan is over. The application reads the worker's
//! channel and hands over what it found.

use vstd::prelude::*;
use std::collections::VecDeque;
use crate::app::lifecycle::workspace_scan_disconnected;
use crate::file::{FileError, IoErrorKind};

verus! {

/// How many scanned paths join the tree per poll, at most.
pub const MAX_SCAN_PATHS_PER_POLL: usize = 256;

/// How many scanned paths the worker sends at once.
pub const SCAN_BATCH_SIZE: usize = 64;

/// The paths the scanning worker found and has not sent yet; never a full
/// batch.
pub struct ScanBatcher {
    collected: Vec<String>,
}

impl ScanBatcher {
    #[verifier::type_invariant]
    closed spec fn below_batch_size(self) -> bool {
        self.collected@.len() < SCAN_BATCH_SIZE
    }

    /// The paths collected and not sent yet.
    pub closed spec fn collected(self) -> Seq<String> {
        self.collected@
    }

    /// Nothing collected yet.
    pub fn new() -> (r: ScanBatcher)
        ensures
            r.collected().len() == 0,
    {
        ScanBatcher { collected: Vec::new() }
    }

    /// Collects `path`. When that fills a batch, the batch comes back to be
    /// sent and collecting starts over.
    pub fn push(&mut self, path: String) -> (r: Option<Vec<String>>)
        ensures
            old(self).collected().len() + 1 == SCAN_BATCH_SIZE ==> (r matches Some(b)
                && b@ == old(self).collected().push(path) && final(self).collected().len() == 0),
            old(self).collected().len() + 1 < SCAN_BATCH_SIZE ==> r is None
                && final(self).collected() == old(self).collected().push(path),
    {
        proof { use_type_invariant(&*self); }
        let mut collected = Vec::new();
        std::mem::swap(&mut collected, &mut self.collected);
        collected.push(path);
        if collected.len() == SCAN_BATCH_SIZE {
            Some(collected)
        } else {
            self.collected = collected;
            None
        }
    }

    /// What is left to send when the walk is over, if anything.
    pub fn finish(self) -> (r: Option<Vec<String>>)
        ensures
            self.collected().len() == 0 ==> r is None,
            self.collected().len() > 0 ==> (r matches Some(b) && b@ == self.collected()),
    {
        if self.collected.len() == 0 {
            None
        } else {
            Some(self.collected)
        }
    }
}

/// A message of the scanning worker, tagged with the scan it belongs to.
#[derive(Debug)]
pub enum ScanMessage {
    Batch { generation: u64, paths: Vec<String> },
    Finished { generation: u64, result: Result<(), FileError> },
}

/// What one look at the worker's channel found.
#[derive(Debug)]
pub enum ScanReceipt {
    Message(ScanMessage),
    Empty,
    Disconnected,
}

/// What one poll of a scan did.
#[derive(Debug)]
pub struct ScanPoll {
    /// Whether the workspace tree changed.
    pub changed: bool,
    /// The scan's result, when the scan is over.
    pub outcome: Option<Result<(), FileError>>,
}

/// A workspace scan in progress.
#[derive(Debug)]
pub struct WorkspaceScan {
    pub root: String,
    pub generation: u64,
    pub expansion: Vec<(String, bool)>,
    pub pending_paths: VecDeque<String>,
    pub finished: Option<Result<(), FileError>>,
    pub showing_previous_tree: bool,
}

/// The number of waiting paths that one poll takes.
pub open spec fn batch_len(pending: nat) -> nat {
    if pending < MAX_SCAN_PATHS_PER_POLL { pending } else { MAX_SCAN_PATHS_PER_POLL as nat }
}

/// `a` and `b` describe the same scan (everything but the waiting paths,
/// the result and whether the previous tree still shows).
pub open spec fn same_scan(a: WorkspaceScan, b: WorkspaceScan) -> bool {
    &&& a.root@ == b.root@
    &&& a.generation == b.generation
    &&& a.expansion@ == b.expansion@
}

/// The result a scan reports when its worker went away before finishing.
pub open spec fn disconnected_result(e: Result<(), FileError>, root: Seq<char>) -> bool {
    e matches Err(FileError::Io { path, operation, kind: IoErrorKind::Other })
        && path@ == root && operation@ == "scan"@
}

impl WorkspaceScan {
    /// Scan number `generation` of `root`, keeping `expansion` for the new
    /// tree; the previous tree shows until the first paths arrive.
    pub fn new(root: String, generation: u64, expansion: Vec<(String, bool)>) -> (r: WorkspaceScan)
        ensures
            r.root@ == root@,
            r.generation == generation,
            r.expansion@ == expansion@,
            r.pending_paths@.len() == 0,
            r.finished is None,
            r.showing_previous_tree,
    {
        WorkspaceScan {
            root,
            generation,
            expansion,
            pending_paths: VecDeque::new(),
            finished: None,
            showing_previous_tree: true,
        }
    }

    /// Whether to read another message now: fewer paths than one poll
    /// takes are waiting.
    pub fn wants_more(&self) -> (r: bool)
        ensures
            r == (self.pending_paths@.len() < MAX_SCAN_PATHS_PER_POLL),
    {
        self.pending_paths.len() < MAX_SCAN_PATHS_PER_POLL
    }

    /// Takes in what the channel gave: the paths and the result of this
    /// scan are kept, messages of earlier scans are dropped, and a worker
    /// that went away without a result leaves the scan failed. Returns
    /// whether to keep reading.
    pub fn receive(&mut self, receipt: ScanReceipt) -> (r: bool)
        ensures
            same_scan(*final(self), *old(self)),
            final(self).showing_previous_tree == old(self).showing_previous_tree,
            match receipt {
                ScanReceipt::Message(ScanMessage::Batch { generation, paths }) => {
                    &&& r
                    &&& final(self).finished == old(self).finished
                    &&& generation == old(self).generation ==>
                        final(self).pending_paths@ == old(self).pending_paths@ + paths@
                    &&& generation != old(self).generation ==>
                        final(self).pending_paths@ == old(self).pending_paths@
                },
                ScanReceipt::Message(ScanMessage::Finished { generation, result }) => {
                    &&& r
                    &&& final(self).pending_paths@ == old(self).pending_paths@
                    &&& generation == old(self).generation ==> final(self).finished == Some(result)
                    &&& generation != old(self).generation ==> final(self).finished == old(self).finished
                },
                ScanReceipt::Empty => {
                    &&& !r
                    &&& final(self).pending_paths@ == old(self).pending_paths@
                    &&& final(self).finished == old(self).finished
                },
                ScanReceipt::Disconnected => {
                    &&& !r
                    &&& final(self).pending_paths@ == old(self).pending_paths@
                    &&& old(self).finished is Some ==> final(self).finished == old(self).finished
                    &&& old(self).finished is None ==> (final(self).finished matches Some(e)
                        && disconnected_result(e, old(self).root@))
                },
            },
    {
        match receipt {
            ScanReceipt::Message(ScanMessage::Batch { generation, paths }) => {
                if generation == self.generation {
                    let mut paths = paths;
                    let mut arrived: VecDeque<String> = VecDeque::new();
                    let ghost all = paths@;
                    while paths.len() > 0
                        invariant
                            paths@ + arrived@ == all,
                        decreases paths@.len(),
                    {
                        let ghost before = paths@;
                        match paths.pop() {
                            Some(p) => {
                                arrived.push_front(p);
                                assert(paths@ + arrived@ =~= all) by {
                                    assert(before =~= paths@.push(p));
                                }
                            },
                            None => {},
                        }
                    }
                    assert(arrived@ =~= all);
                    self.pending_paths.append(&mut arrived);
                }
                true
            },
            ScanReceipt::Message(ScanMessage::Finished { generation, result }) => {
                if generation == self.generation {
                    self.finished = Some(result);
                }
                true
            },
            ScanReceipt::Empty => false,
            ScanReceipt::Disconnected => {
                if self.finished.is_none() {
                    self.finished = Some(workspace_scan_disconnected(self.root.as_str()));
                }
                false
            },
        }
    }

    /// Takes the oldest waiting paths, as many as one poll takes.
    pub fn take_batch(&mut self) -> (r: Vec<String>)
        ensures
            same_scan(*final(self), *old(self)),
            final(self).finished == old(self).finished,
            final(self).showing_previous_tree == old(self).showing_previous_tree,
            r@ == old(self).pending_paths@.take(batch_len(old(self).pending_paths@.len()) as int),
            final(self).pending_paths@ == old(self).pending_paths@.skip(batch_len(old(self).pending_paths@.len()) as int),
    {
        let ghost all = self.pending_paths@;
        let mut batch: Vec<String> = Vec::new();
        while batch.len() < MAX_SCAN_PATHS_PER_POLL && self.pending_paths.len() > 0
            invariant
                same_scan(*self, *old(self)),
                self.finished == old(self).finished,
                self.showing_previous_tree == old(self).showing_previous_tree,
                all == old(self).pending_paths@,
                batch@.len() <= MAX_SCAN_PATHS_PER_POLL,
                batch@ + self.pending_paths@ == all,
            decreases self.pending_paths@.len(),
        {
            let ghost before = self.pending_paths@;
            match self.pending_paths.pop_front() {
                Some(p) => {
                    batch.push(p);
                    assert(batch@ + self.pending_paths@ =~= all) by {
                        assert(before =~= seq![p] + self.pending_paths@);
                    }
                },
                None => {},
            }
        }
        proof {
            let n = batch_len(all.len());
            assert(batch@.len() == n);
            assert(batch@ =~= all.take(n as int));
            assert(self.pending_paths@ =~= all.skip(n as int));
        }
        batch
    }

    /// The scan's result, once the worker reported it and every path it
    /// found was taken; the scan then holds no result any more.
    pub fn take_completion(&mut self) -> (r: Option<Result<(), FileError>>)
        ensures
            same_scan(*final(self), *old(self)),
            final(self).pending_paths@ == old(self).pending_paths@,
            final(self).showing_previous_tree == old(self).showing_previous_tree,
            old(self).finished is Some && old(self).pending_paths@.len() == 0 ==>
                r == old(self).finished && final(self).finished is None,
            !(old(self).finished is Some && old(self).pending_paths@.len() == 0) ==>
                r is None && final(self).finished == old(self).finished,
    {
        if self.pending_paths.len() > 0 {
            return None;
        }
        self.finished.take()
    }
}

/// Refreshes of the workspace tree asked for while a scan runs: they are
/// folded into one, which starts when that scan ends.
#[derive(Debug)]
pub struct RefreshQueue {
    pending: bool,
}

impl View for RefreshQueue {
    type V = bool;

    closed spec fn view(&self) -> bool {
        self.pending
    }
}

impl RefreshQueue {
    /// Nothing waits.
    pub fn new() -> (r: RefreshQueue)
        ensures
            !r@,
    {
        RefreshQueue { pending: false }
    }

    /// Whether a refresh waits for the running scan.
    pub fn pending(&self) -> (r: bool)
        ensures
            r == self@,
    {
        self.pending
    }

    /// A refresh is asked for. One that may wait (`coalesce`) while a scan
    /// runs waits for it (`false`); otherwise a scan starts now (`true`) and
    /// nothing waits any more.
    pub fn request(&mut self, coalesce: bool, scan_running: bool) -> (r: bool)
        ensures
            r == !(coalesce && scan_running),
            final(self)@ == !r,
    {
        if coalesce && scan_running {
            self.pending = true;
            false
        } else {
            self.pending = false;
            true
        }
    }

    /// The running scan ended: whether the refresh that waited starts now.
    /// Nothing waits afterwards.
    pub fn scan_ended(&mut self) -> (r: bool)
        ensures
            r == old(self)@,
            !final(self)@,
    {
        let r = self.pending;
        self.pending = false;
        r
    }

    /// A new workspace replaces the old one: what waited is dropped.
    pub fn clear(&mut self)
        ensures
            !final(self)@,
    {
        self.pending = false;
    }
}

} // verus!
