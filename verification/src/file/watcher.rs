//! Filesystem events as the editor sees them, and the bookkeeping of which
//! directories are watched. Talking to the OS watcher is the application's.

use vstd::prelude::*;
use crate::file::{IoErrorKind, spec_kind_description};
use crate::i18n::{Language, LocalizedMessage};
use crate::pathname::{parent, spec_parent};
use crate::text::{cat2, str_eq};

verus! {

/// A change reported for one path.
#[derive(Clone, Debug, PartialEq, Eq)]
pub enum FileSystemEvent {
    Changed(String),
    Created(String),
    Removed(String),
    Error { path: Option<String>, message: String },
}

impl FileSystemEvent {
    /// The path of a change event.
    pub fn path(&self) -> (r: Option<&String>)
        ensures
            match self {
                FileSystemEvent::Changed(p) => r == Some(p),
                FileSystemEvent::Created(p) => r == Some(p),
                FileSystemEvent::Removed(p) => r == Some(p),
                FileSystemEvent::Error { .. } => r is None,
            },
    {
        match self {
            FileSystemEvent::Changed(p) => Some(p),
            FileSystemEvent::Created(p) => Some(p),
            FileSystemEvent::Removed(p) => Some(p),
            FileSystemEvent::Error { .. } => None,
        }
    }

    /// The path of an event that can change the workspace tree, and whether
    /// it was a creation.
    pub fn workspace_mutation(&self) -> (r: Option<(&String, bool)>)
        ensures
            match self {
                FileSystemEvent::Changed(p) => r == Some((p, false)),
                FileSystemEvent::Created(p) => r == Some((p, true)),
                FileSystemEvent::Removed(p) => r == Some((p, false)),
                FileSystemEvent::Error { .. } => r is None,
            },
    {
        match self {
            FileSystemEvent::Changed(p) => Some((p, false)),
            FileSystemEvent::Created(p) => Some((p, true)),
            FileSystemEvent::Removed(p) => Some((p, false)),
            FileSystemEvent::Error { .. } => None,
        }
    }
}

/// The kind of an OS watcher event. `Access` carries the watcher's own
/// rendering of its detail.
#[derive(Clone, Debug, PartialEq, Eq)]
pub enum WatchEventKind {
    Any,
    Access { debug: String },
    Create,
    Modify,
    Remove,
    Other,
}

/// How an OS watcher event is named in an error message.
pub open spec fn spec_kind_name(kind: WatchEventKind) -> Seq<char> {
    match kind {
        WatchEventKind::Any => "Any"@,
        WatchEventKind::Access { debug } => debug@,
        WatchEventKind::Create => "Create"@,
        WatchEventKind::Modify => "Modify"@,
        WatchEventKind::Remove => "Remove"@,
        WatchEventKind::Other => "Other"@,
    }
}

/// The event for an OS event of `kind` on `path`: creations, removals and
/// modifications keep their meaning; anything else becomes an error naming
/// the kind.
pub fn translate_event(kind: WatchEventKind, path: String) -> (r: FileSystemEvent)
    ensures
        match kind {
            WatchEventKind::Create => r matches FileSystemEvent::Created(p) && p@ == path@,
            WatchEventKind::Remove => r matches FileSystemEvent::Removed(p) && p@ == path@,
            WatchEventKind::Modify => r matches FileSystemEvent::Changed(p) && p@ == path@,
            _ => r matches FileSystemEvent::Error { path: Some(p), message: m } && p@ == path@
                && m@ == "Unsupported filesystem event kind: "@ + spec_kind_name(kind),
        },
{
    match kind {
        WatchEventKind::Create => FileSystemEvent::Created(path),
        WatchEventKind::Remove => FileSystemEvent::Removed(path),
        WatchEventKind::Modify => FileSystemEvent::Changed(path),
        WatchEventKind::Any => unsupported_event("Any", path),
        WatchEventKind::Other => unsupported_event("Other", path),
        WatchEventKind::Access { debug } => unsupported_event(debug.as_str(), path),
    }
}

fn unsupported_event(name: &str, path: String) -> (r: FileSystemEvent)
    ensures
        r matches FileSystemEvent::Error { path: Some(p), message: m } && p@ == path@
            && m@ == "Unsupported filesystem event kind: "@ + name@,
{
    FileSystemEvent::Error {
        path: Some(path),
        message: cat2("Unsupported filesystem event kind: ", name),
    }
}

/// `e` is an error event about `path` with `message`.
pub open spec fn is_error_event(e: FileSystemEvent, path: Option<Seq<char>>, message: Seq<char>) -> bool {
    match e {
        FileSystemEvent::Error { path: p, message: m } => m@ == message && match (p, path) {
            (Some(x), Some(y)) => x@ == y,
            (None, None) => true,
            _ => false,
        },
        _ => false,
    }
}

/// The events for a watcher error with `message` about `paths`: one per
/// path, or one without a path when there is none.
pub fn translate_notify_error(message: String, paths: Vec<String>) -> (r: Vec<FileSystemEvent>)
    ensures
        paths@.len() == 0 ==> r@.len() == 1 && is_error_event(r@[0], None, message@),
        paths@.len() > 0 ==> r@.len() == paths@.len() && forall|i: int| 0 <= i < paths@.len() ==>
            is_error_event(#[trigger] r@[i], Some(paths@[i]@), message@),
{
    let mut events: Vec<FileSystemEvent> = Vec::new();
    if paths.len() == 0 {
        events.push(FileSystemEvent::Error { path: None, message });
        return events;
    }
    let mut i: usize = 0;
    while i < paths.len()
        invariant
            0 <= i <= paths@.len(),
            events@.len() == i,
            forall|j: int| 0 <= j < i ==> is_error_event(#[trigger] events@[j], Some(paths@[j]@), message@),
        decreases paths@.len() - i,
    {
        events.push(FileSystemEvent::Error { path: Some(paths[i].clone()), message: message.clone() });
        i = i + 1;
    }
    events
}

/// Why a directory could not be watched.
#[derive(Clone, Debug, PartialEq, Eq)]
pub enum WatchError {
    MissingParent { path: String },
    HomeDirectoryRoot { path: String },
    Io { path: String, operation: &'static str, kind: IoErrorKind },
    Notify { path: String, operation: &'static str, message: String },
}

/// The message of a watch error.
pub open spec fn spec_watch_error_message(e: WatchError) -> Seq<char> {
    match e {
        WatchError::MissingParent { path } => "Could not watch "@ + path@ + ": parent directory not found."@,
        WatchError::HomeDirectoryRoot { path } =>
            "Could not watch "@ + path@ + ": refusing to watch the home directory root."@,
        WatchError::Io { path, operation, kind } =>
            "Could not "@ + operation@ + " "@ + path@ + ": "@ + spec_kind_description(kind) + "."@,
        WatchError::Notify { path, operation, message } =>
            "Could not "@ + operation@ + " "@ + path@ + ": "@ + message@ + "."@,
    }
}

impl WatchError {
    /// The error's message (what `Display` shows in the application).
    pub fn message(&self) -> (r: String)
        ensures
            r@ == spec_watch_error_message(*self),
    {
        match self {
            WatchError::MissingParent { path } => {
                let mut s = String::from_str("Could not watch ");
                s.append(path.as_str());
                s.append(": parent directory not found.");
                s
            },
            WatchError::HomeDirectoryRoot { path } => {
                let mut s = String::from_str("Could not watch ");
                s.append(path.as_str());
                s.append(": refusing to watch the home directory root.");
                s
            },
            WatchError::Io { path, operation, kind } => {
                let d = kind.description();
                let mut s = String::from_str("Could not ");
                s.append(operation);
                s.append(" ");
                s.append(path.as_str());
                s.append(": ");
                s.append(d.as_str());
                s.append(".");
                s
            },
            WatchError::Notify { path, operation, message } => {
                let mut s = String::from_str("Could not ");
                s.append(operation);
                s.append(" ");
                s.append(path.as_str());
                s.append(": ");
                s.append(message.as_str());
                s.append(".");
                s
            },
        }
    }
}

impl LocalizedMessage for WatchError {
    /// Watch errors have one (English) message in both languages.
    fn localized_message(&self, language: Language) -> (r: String)
        ensures
            r@ == spec_watch_error_message(*self),
    {
        self.message()
    }
}

/// The directory to watch for a file: its parent (`.` for a bare name).
pub fn file_parent_directory(path: &str) -> (r: Result<String, WatchError>)
    ensures
        match spec_parent(path@) {
            Some(p) => r matches Ok(d) && d@ == if p.len() == 0 { "."@ } else { p },
            None => r matches Err(WatchError::MissingParent { path: q }) && q@ == path@,
        },
{
    match parent(path) {
        Some(p) => {
            if p.as_str().unicode_len() == 0 {
                Ok(String::from_str("."))
            } else {
                Ok(p)
            }
        },
        None => Err(WatchError::MissingParent { path: path.to_string() }),
    }
}

/// A canonical directory may be watched unless it is the home directory
/// itself (`home`, canonicalized, when known).
pub fn check_watch_directory(canonical: String, home: Option<String>) -> (r: Result<String, WatchError>)
    ensures
        match home {
            Some(h) if h@ == canonical@ => r matches Err(WatchError::HomeDirectoryRoot { path: p }) && p@ == canonical@,
            _ => r matches Ok(d) && d@ == canonical@,
        },
{
    match home {
        Some(h) => {
            if str_eq(h.as_str(), canonical.as_str()) {
                Err(WatchError::HomeDirectoryRoot { path: canonical })
            } else {
                Ok(canonical)
            }
        },
        None => Ok(canonical),
    }
}

/// Whether a directory is watched with its subdirectories.
#[derive(Clone, Copy, Debug, PartialEq, Eq, Structural)]
pub enum WatchMode {
    Recursive,
    NonRecursive,
}

/// What to tell the OS watcher for one request.
#[derive(Clone, Copy, Debug, PartialEq, Eq, Structural)]
pub enum WatchPlan {
    /// The directory is already watched at least as widely.
    Keep,
    /// Start watching the directory.
    Watch,
    /// Drop the non-recursive watch, then watch recursively.
    Upgrade,
}

/// The plan for a request of `requested` on a directory currently watched
/// with `current`: a watch is never narrowed, and a non-recursive one is
/// upgraded when a recursive one is asked for.
pub open spec fn spec_watch_plan(current: Option<WatchMode>, requested: WatchMode) -> WatchPlan {
    match current {
        None => WatchPlan::Watch,
        Some(WatchMode::NonRecursive) => if requested == WatchMode::Recursive {
            WatchPlan::Upgrade
        } else {
            WatchPlan::Keep
        },
        Some(WatchMode::Recursive) => WatchPlan::Keep,
    }
}

/// The watched directories with their modes, the latest record first: a
/// directory's mode is the one recorded for it last (`mode_from` at 0).
#[derive(Debug)]
pub struct WatchRegistry {
    watched: Vec<(String, WatchMode)>,
}

/// The mode of `p` in `w[i..]`, if any.
pub open spec fn mode_from(w: Seq<(Seq<char>, WatchMode)>, i: int, p: Seq<char>) -> Option<WatchMode>
    decreases w.len() - i,
{
    if i < 0 || i >= w.len() {
        None
    } else if w[i].0 == p {
        Some(w[i].1)
    } else {
        mode_from(w, i + 1, p)
    }
}

impl View for WatchRegistry {
    type V = Seq<(Seq<char>, WatchMode)>;

    closed spec fn view(&self) -> Seq<(Seq<char>, WatchMode)> {
        self.watched@.map_values(|x: (String, WatchMode)| (x.0@, x.1))
    }
}

impl WatchRegistry {
    pub fn new() -> (r: WatchRegistry)
        ensures
            r@ == Seq::<(Seq<char>, WatchMode)>::empty(),
    {
        let r = WatchRegistry { watched: Vec::new() };
        assert(r@ =~= Seq::<(Seq<char>, WatchMode)>::empty());
        r
    }

    /// The mode `canonical` is watched with.
    pub fn mode(&self, canonical: &String) -> (r: Option<WatchMode>)
        ensures
            r == mode_from(self@, 0, canonical@),
    {
        let mut i: usize = 0;
        while i < self.watched.len()
            invariant
                0 <= i <= self.watched@.len(),
                self@ == self.watched@.map_values(|x: (String, WatchMode)| (x.0@, x.1)),
                mode_from(self@, 0, canonical@) == mode_from(self@, i as int, canonical@),
            decreases self.watched@.len() - i,
        {
            if self.watched[i].0 == *canonical {
                return Some(self.watched[i].1);
            }
            i = i + 1;
        }
        None
    }

    /// What to do for a request to watch `canonical` with `requested`.
    pub fn plan(&self, canonical: &String, requested: WatchMode) -> (r: WatchPlan)
        ensures
            r == spec_watch_plan(mode_from(self@, 0, canonical@), requested),
    {
        match self.mode(canonical) {
            None => WatchPlan::Watch,
            Some(WatchMode::NonRecursive) => if requested == WatchMode::Recursive {
                WatchPlan::Upgrade
            } else {
                WatchPlan::Keep
            },
            Some(WatchMode::Recursive) => WatchPlan::Keep,
        }
    }

    /// Records that `canonical` is now watched with `mode`.
    pub fn record(&mut self, canonical: String, mode: WatchMode)
        ensures
            mode_from(final(self)@, 0, canonical@) == Some(mode),
            forall|q: Seq<char>| q != canonical@ ==> mode_from(final(self)@, 0, q) == mode_from(old(self)@, 0, q),
    {
        let ghost c = canonical@;
        let ghost before = self@;
        self.watched.insert(0, (canonical, mode));
        assert(self@ =~= seq![(c, mode)] + before);
        proof {
            assert forall|q: Seq<char>| q != c implies mode_from(self@, 0, q) == mode_from(before, 0, q) by {
                lemma_mode_from_shift(self@, before, q, 0);
            }
        }
    }
}

proof fn lemma_mode_from_shift(a: Seq<(Seq<char>, WatchMode)>, b: Seq<(Seq<char>, WatchMode)>, q: Seq<char>, i: int)
    requires
        a.len() == b.len() + 1,
        0 <= i <= b.len(),
        a[0].0 != q,
        forall|k: int| 0 <= k < b.len() ==> a[k + 1] == b[k],
    ensures
        mode_from(a, i + 1, q) == mode_from(b, i, q),
        i == 0 ==> mode_from(a, 0, q) == mode_from(b, 0, q),
    decreases b.len() - i,
{
    if i < b.len() {
        lemma_mode_from_shift(a, b, q, i + 1);
    }
    if i == 0 {
        assert(mode_from(a, 0, q) == mode_from(a, 1, q));
    }
}

} // verus!
