//! What happens to a tab's saved identity when it is written, written
//! elsewhere, or changed on disk by someone else; and the errors the
//! editor reports for it.

use vstd::prelude::*;
use crate::app::open_tabs::OpenTabPaths;
use crate::app::tabs::{
    apply_save_as_identity, markdown_destination, spec_display_title, spec_markdown_destination,
};
use crate::autosave::{AutosaveKey, autosave_is_current, spec_autosave_is_current};
use crate::config::recent::{RecentFilesError, spec_recent_error_message};
use crate::file::{FileError, spec_file_error_message};
use crate::file::watcher::{FileSystemEvent, WatchError, spec_watch_error_message};
use crate::i18n::{Language, LocalizedMessage};
use crate::pathname::{is_markdown_file, spec_is_markdown, spec_starts_with, starts_with};
use crate::state::{
    DiskState, DiskVersion, EditorTab, FileTreeNode, NodeView, TabId, forest_view,
    lemma_forest_view, node_at,
};
use crate::text::{decimal, format_decimal, str_eq};

verus! {

/// Why an editor operation failed.
#[derive(Debug)]
pub enum LifecycleError {
    File(FileError),
    Watch(WatchError),
    NoActiveTab,
    MissingTab(TabId),
    SaveAsRequired(TabId),
    UnresolvedExternalChange(TabId),
    PathAlreadyOpen { path: String, tab_id: TabId },
    MissingRecentEntry(usize),
    SaveAll { errors: Vec<LifecycleError> },
    MissingRecentFile { path: String, cleanup_error: Option<RecentFilesError> },
}

/// The messages of `errors` in `language`, separated by `sep`.
pub open spec fn joined_messages(errors: Seq<LifecycleError>, language: Language, sep: Seq<char>) -> Seq<char>
    decreases errors, 0int,
{
    if errors.len() == 0 {
        Seq::empty()
    } else if errors.len() == 1 {
        spec_lifecycle_message(errors[0], language)
    } else {
        joined_messages(errors.drop_last(), language, sep) + sep + spec_lifecycle_message(errors.last(), language)
    }
}

/// The message of `e` in `language`; the English one is what `Display`
/// shows.
pub open spec fn spec_lifecycle_message(e: LifecycleError, language: Language) -> Seq<char>
    decreases e, 1int,
{
    match language {
        Language::English => match e {
            LifecycleError::File(error) => spec_file_error_message(error, Language::English),
            LifecycleError::Watch(error) => spec_watch_error_message(error),
            LifecycleError::NoActiveTab => "There is no active editor tab."@,
            LifecycleError::MissingTab(t) => "Could not find editor tab "@ + decimal(t.0 as nat) + "."@,
            LifecycleError::SaveAsRequired(t) => "Tab "@ + decimal(t.0 as nat) + " must be saved with Save As first."@,
            LifecycleError::UnresolvedExternalChange(t) =>
                "Tab "@ + decimal(t.0 as nat) + " has an unresolved external file change."@,
            LifecycleError::PathAlreadyOpen { path, tab_id } =>
                path@ + " is already open in tab "@ + decimal(tab_id.0 as nat) + "."@,
            LifecycleError::MissingRecentEntry(index) =>
                "Recent file entry "@ + decimal(index as nat + 1) + " is no longer available."@,
            LifecycleError::SaveAll { errors } =>
                "Could not save all dirty files ("@ + decimal(errors@.len()) + " failure"@
                    + (if errors@.len() == 1 { ""@ } else { "s"@ }) + "): "@
                    + joined_messages(errors@, language, "; "@),
            LifecycleError::MissingRecentFile { path, cleanup_error } =>
                "Could not open recent file "@ + path@ + ": file not found. The entry was removed"@
                    + match cleanup_error {
                        Some(c) => ", but the recent-files list could not be saved: "@
                            + spec_recent_error_message(c, Language::English),
                        None => ""@,
                    } + "."@,
        },
        Language::Chinese => match e {
            LifecycleError::File(error) => spec_file_error_message(error, language),
            LifecycleError::Watch(error) => spec_watch_error_message(error),
            LifecycleError::NoActiveTab => "没有活动的编辑器标签页。"@,
            LifecycleError::MissingTab(t) => "找不到编辑器标签页 "@ + decimal(t.0 as nat) + "。"@,
            LifecycleError::SaveAsRequired(t) => "标签页 "@ + decimal(t.0 as nat) + " 需要先使用“另存为”。"@,
            LifecycleError::UnresolvedExternalChange(t) =>
                "标签页 "@ + decimal(t.0 as nat) + " 有未解决的外部文件更改。"@,
            LifecycleError::PathAlreadyOpen { path, tab_id } =>
                path@ + " 已在标签页 "@ + decimal(tab_id.0 as nat) + " 中打开。"@,
            LifecycleError::MissingRecentEntry(index) =>
                "最近打开的第 "@ + decimal(index as nat + 1) + " 项已不可用。"@,
            LifecycleError::SaveAll { errors } =>
                "无法保存所有未保存文件（"@ + decimal(errors@.len()) + " 个失败）："@
                    + joined_messages(errors@, language, "；"@),
            LifecycleError::MissingRecentFile { path, cleanup_error } =>
                "无法打开最近文件 "@ + path@ + "：找不到文件。已移除该条记录"@
                    + match cleanup_error {
                        Some(c) => "；最近打开列表保存失败："@ + spec_recent_error_message(c, language),
                        None => ""@,
                    } + "。"@,
        },
    }
}

fn append_decimal(s: &mut String, n: u128)
    ensures
        final(s)@ == old(s)@ + decimal(n as nat),
{
    let d = format_decimal(n);
    s.append(d.as_str());
}

impl LifecycleError {
    /// The English message (what `Display` shows in the application).
    pub fn message(&self) -> (r: String)
        ensures
            r@ == spec_lifecycle_message(*self, Language::English),
    {
        self.message_in(Language::English)
    }

    fn message_in(&self, language: Language) -> (r: String)
        ensures
            r@ == spec_lifecycle_message(*self, language),
        decreases self,
    {
        match language {
            Language::English => match self {
                LifecycleError::File(error) => error.message(),
                LifecycleError::Watch(error) => error.message(),
                LifecycleError::NoActiveTab => String::from_str("There is no active editor tab."),
                LifecycleError::MissingTab(t) => {
                    let mut s = String::from_str("Could not find editor tab ");
                    append_decimal(&mut s, t.0 as u128);
                    s.append(".");
                    s
                },
                LifecycleError::SaveAsRequired(t) => {
                    let mut s = String::from_str("Tab ");
                    append_decimal(&mut s, t.0 as u128);
                    s.append(" must be saved with Save As first.");
                    s
                },
                LifecycleError::UnresolvedExternalChange(t) => {
                    let mut s = String::from_str("Tab ");
                    append_decimal(&mut s, t.0 as u128);
                    s.append(" has an unresolved external file change.");
                    s
                },
                LifecycleError::PathAlreadyOpen { path, tab_id } => {
                    let mut s = path.clone();
                    s.append(" is already open in tab ");
                    append_decimal(&mut s, tab_id.0 as u128);
                    s.append(".");
                    s
                },
                LifecycleError::MissingRecentEntry(index) => {
                    let mut s = String::from_str("Recent file entry ");
                    append_decimal(&mut s, *index as u128 + 1);
                    s.append(" is no longer available.");
                    s
                },
                LifecycleError::SaveAll { errors } => {
                    let mut s = String::from_str("Could not save all dirty files (");
                    append_decimal(&mut s, errors.len() as u128);
                    s.append(" failure");
                    if errors.len() == 1 {
                        s.append("");
                    } else {
                        s.append("s");
                    }
                    s.append("): ");
                    let j = Self::join(self, errors, language, "; ");
                    s.append(j.as_str());
                    s
                },
                LifecycleError::MissingRecentFile { path, cleanup_error } => {
                    let mut s = String::from_str("Could not open recent file ");
                    s.append(path.as_str());
                    s.append(": file not found. The entry was removed");
                    match cleanup_error {
                        Some(c) => {
                            s.append(", but the recent-files list could not be saved: ");
                            let m = c.message();
                            s.append(m.as_str());
                        },
                        None => {
                            s.append("");
                        },
                    }
                    s.append(".");
                    s
                },
            },
            Language::Chinese => match self {
                LifecycleError::File(error) => error.localized_message(language),
                LifecycleError::Watch(error) => error.message(),
                LifecycleError::NoActiveTab => String::from_str("没有活动的编辑器标签页。"),
                LifecycleError::MissingTab(t) => {
                    let mut s = String::from_str("找不到编辑器标签页 ");
                    append_decimal(&mut s, t.0 as u128);
                    s.append("。");
                    s
                },
                LifecycleError::SaveAsRequired(t) => {
                    let mut s = String::from_str("标签页 ");
                    append_decimal(&mut s, t.0 as u128);
                    s.append(" 需要先使用“另存为”。");
                    s
                },
                LifecycleError::UnresolvedExternalChange(t) => {
                    let mut s = String::from_str("标签页 ");
                    append_decimal(&mut s, t.0 as u128);
                    s.append(" 有未解决的外部文件更改。");
                    s
                },
                LifecycleError::PathAlreadyOpen { path, tab_id } => {
                    let mut s = path.clone();
                    s.append(" 已在标签页 ");
                    append_decimal(&mut s, tab_id.0 as u128);
                    s.append(" 中打开。");
                    s
                },
                LifecycleError::MissingRecentEntry(index) => {
                    let mut s = String::from_str("最近打开的第 ");
                    append_decimal(&mut s, *index as u128 + 1);
                    s.append(" 项已不可用。");
                    s
                },
                LifecycleError::SaveAll { errors } => {
                    let mut s = String::from_str("无法保存所有未保存文件（");
                    append_decimal(&mut s, errors.len() as u128);
                    s.append(" 个失败）：");
                    let j = Self::join(self, errors, language, "；");
                    s.append(j.as_str());
                    s
                },
                LifecycleError::MissingRecentFile { path, cleanup_error } => {
                    let mut s = String::from_str("无法打开最近文件 ");
                    s.append(path.as_str());
                    s.append("：找不到文件。已移除该条记录");
                    match cleanup_error {
                        Some(c) => {
                            s.append("；最近打开列表保存失败：");
                            let m = c.localized_message(language);
                            s.append(m.as_str());
                        },
                        None => {
                            s.append("");
                        },
                    }
                    s.append("。");
                    s
                },
            },
        }
    }

    fn join(owner: &LifecycleError, errors: &Vec<LifecycleError>, language: Language, sep: &str) -> (r: String)
        requires
            owner matches LifecycleError::SaveAll { errors: e } && e == errors,
        ensures
            r@ == joined_messages(errors@, language, sep@),
        decreases owner, 0int,
    {
        let mut s = String::new();
        let mut i: usize = 0;
        while i < errors.len()
            invariant
                0 <= i <= errors@.len(),
                owner matches LifecycleError::SaveAll { errors: e } && e == errors,
                s@ == joined_messages(errors@.subrange(0, i as int), language, sep@),
            decreases errors@.len() - i,
        {
            assert(decreases_to!(owner => errors@[i as int]));
            let m = errors[i].message_in(language);
            if i > 0 {
                s.append(sep);
            }
            s.append(m.as_str());
            proof {
                let pre = errors@.subrange(0, i + 1);
                assert(pre.drop_last() =~= errors@.subrange(0, i as int));
                assert(pre.last() == errors@[i as int]);
                if i == 0 {
                    assert(s@ =~= joined_messages(pre, language, sep@));
                }
            }
            i = i + 1;
        }
        assert(errors@.subrange(0, errors@.len() as int) =~= errors@);
        s
    }
}

impl LocalizedMessage for LifecycleError {
    fn localized_message(&self, language: Language) -> (r: String)
        ensures
            r@ == spec_lifecycle_message(*self, language),
    {
        self.message_in(language)
    }
}

/// The parts of a tab that saving reads and changes.
#[derive(Debug)]
pub struct SaveTabState {
    pub path: String,
    pub title: String,
    pub saved_source: String,
    pub disk_version: DiskVersion,
    pub dirty: bool,
    pub disk_state: DiskState,
}

/// The abstract content of a `SaveTabState`.
pub ghost struct SaveTabView {
    pub path: Seq<char>,
    pub title: Seq<char>,
    pub saved_source: Seq<char>,
    pub disk_version: DiskVersion,
    pub dirty: bool,
    pub disk_state: DiskState,
}

impl View for SaveTabState {
    type V = SaveTabView;

    open spec fn view(&self) -> SaveTabView {
        SaveTabView {
            path: self.path@,
            title: self.title@,
            saved_source: self.saved_source@,
            disk_version: self.disk_version,
            dirty: self.dirty,
            disk_state: self.disk_state,
        }
    }
}

/// `t` after `source` was written and the disk reported `version`: the
/// written text is the saved text, the tab is clean and in sync.
pub open spec fn committed(t: SaveTabView, source: Seq<char>, version: DiskVersion) -> SaveTabView {
    SaveTabView { saved_source: source, disk_version: version, dirty: false, disk_state: DiskState::Synced, ..t }
}

impl SaveTabState {
    /// The saving state of `tab`.
    pub fn from_tab(tab: &EditorTab) -> (r: SaveTabState)
        ensures
            r@ == (SaveTabView {
                path: tab.path@,
                title: tab.title@,
                saved_source: tab.saved_source@,
                disk_version: tab.disk_version,
                dirty: tab.dirty,
                disk_state: tab.disk_state,
            }),
    {
        SaveTabState {
            path: tab.path.clone(),
            title: tab.title.clone(),
            saved_source: tab.saved_source.clone(),
            disk_version: tab.disk_version,
            dirty: tab.dirty,
            disk_state: tab.disk_state,
        }
    }

    /// Writes this state back into `tab`; its other fields stay.
    pub fn store(self, tab: &mut EditorTab)
        ensures
            final(tab).path@ == self.path@,
            final(tab).title@ == self.title@,
            final(tab).saved_source@ == self.saved_source@,
            final(tab).disk_version == self.disk_version,
            final(tab).dirty == self.dirty,
            final(tab).disk_state == self.disk_state,
            final(tab).id == old(tab).id,
            final(tab).autosave_generation == old(tab).autosave_generation,
            final(tab).autosave_blocked == old(tab).autosave_blocked,
    {
        tab.path = self.path;
        tab.title = self.title;
        tab.saved_source = self.saved_source;
        tab.disk_version = self.disk_version;
        tab.dirty = self.dirty;
        tab.disk_state = self.disk_state;
    }

    /// Records a successful write of `current_source` that left the file
    /// at `version`.
    pub fn commit_save(&mut self, current_source: String, version: DiskVersion)
        ensures
            final(self)@ == committed(old(self)@, current_source@, version),
    {
        crate::app::tabs::apply_successful_save(&mut self.saved_source, &mut self.dirty, current_source);
        self.disk_version = version;
        self.disk_state = DiskState::Synced;
    }
}

/// Saves `current_source` to the tab's own file with `writer`: on success
/// the tab records what was written; on failure nothing about the tab
/// changes and the writer's error is returned.
pub fn save_tab_transition<W: FnOnce(&String, &String) -> Result<DiskVersion, FileError>>(
    tab: &mut SaveTabState,
    current_source: String,
    writer: W,
) -> (r: Result<(), LifecycleError>)
    requires
        writer.requires((&old(tab).path, &current_source)),
    ensures
        r is Ok ==> exists|v: DiskVersion|
            writer.ensures((&old(tab).path, &current_source), Ok::<DiskVersion, FileError>(v))
                && final(tab)@ == committed(old(tab)@, current_source@, v),
        r matches Err(e) ==> final(tab)@ == old(tab)@ && exists|fe: FileError|
            writer.ensures((&old(tab).path, &current_source), Err::<DiskVersion, FileError>(fe))
                && e == LifecycleError::File(fe),
{
    match writer(&tab.path, &current_source) {
        Ok(version) => {
            tab.commit_save(current_source, version);
            Ok(())
        },
        Err(error) => Err(LifecycleError::File(error)),
    }
}

/// An autosave: when `key` still names the tab's current edit (same tab,
/// generation, path, and still dirty) the tab is saved as by
/// `save_tab_transition` and `Ok(true)` comes back; otherwise nothing is
/// written and `Ok(false)` comes back.
pub fn autosave_transition<W: FnOnce(&String, &String) -> Result<DiskVersion, FileError>>(
    key: &AutosaveKey,
    tab_id: TabId,
    generation: u64,
    tab: &mut SaveTabState,
    current_source: String,
    writer: W,
) -> (r: Result<bool, LifecycleError>)
    requires
        writer.requires((&old(tab).path, &current_source)),
    ensures
        !spec_autosave_is_current(*key, tab_id, generation, old(tab).path@, old(tab).dirty) ==>
            r == Ok::<bool, LifecycleError>(false) && final(tab)@ == old(tab)@,
        spec_autosave_is_current(*key, tab_id, generation, old(tab).path@, old(tab).dirty) ==> {
            &&& r matches Ok(b) ==> b && exists|v: DiskVersion|
                writer.ensures((&old(tab).path, &current_source), Ok::<DiskVersion, FileError>(v))
                    && final(tab)@ == committed(old(tab)@, current_source@, v)
            &&& r matches Err(e) ==> final(tab)@ == old(tab)@ && exists|fe: FileError|
                writer.ensures((&old(tab).path, &current_source), Err::<DiskVersion, FileError>(fe))
                    && e == LifecycleError::File(fe)
        },
{
    if !autosave_is_current(key, tab_id, generation, tab.path.as_str(), tab.dirty) {
        return Ok(false);
    }
    match save_tab_transition(tab, current_source, writer) {
        Ok(()) => Ok(true),
        Err(e) => Err(e),
    }
}

/// `t` after a Save As that wrote `source` (the disk reporting `version`)
/// and left the tab showing `canonical`.
pub open spec fn saved_as(t: SaveTabView, source: Seq<char>, version: DiskVersion, canonical: Seq<char>) -> SaveTabView {
    SaveTabView { path: canonical, title: spec_display_title(canonical), ..committed(t, source, version) }
}

/// Save As: the chosen `destination` gets the Markdown extension it lacks;
/// `candidate_for` resolves where that lands on disk; a file already open
/// in another tab is refused; `writer` writes the text there; `canonicalize`
/// names the written file. Only when all of them succeed does the tab take
/// the new identity, and the path index follow it. On any failure the tab
/// and the index are as before.
pub fn save_as_transition<R, W, C>(
    tab_id: TabId,
    tab: &mut SaveTabState,
    open_tab_paths: &mut OpenTabPaths,
    destination: String,
    current_source: String,
    candidate_for: R,
    writer: W,
    canonicalize: C,
) -> (r: Result<String, LifecycleError>) where
    R: FnOnce(&String) -> Result<String, FileError>,
    W: FnOnce(&String, &String) -> Result<DiskVersion, FileError>,
    C: FnOnce(&String) -> Result<String, FileError>,

    requires
        tab_id.0 <= old(open_tab_paths).last_id(),
        forall|d: String| candidate_for.requires((&d,)),
        forall|c: String| writer.requires((&c, &current_source)),
        forall|c: String| canonicalize.requires((&c,)),
    ensures
        r matches Ok(canonical) ==> exists|d: String, cand: String, v: DiskVersion| {
            &&& d@ == spec_markdown_destination(destination@)
            &&& candidate_for.ensures((&d,), Ok::<String, FileError>(cand))
            &&& (old(open_tab_paths).lookup(cand@) is None || old(open_tab_paths).lookup(cand@) == Some(tab_id))
            &&& writer.ensures((&cand, &current_source), Ok::<DiskVersion, FileError>(v))
            &&& canonicalize.ensures((&cand,), Ok::<String, FileError>(canonical))
            &&& final(tab)@ == saved_as(old(tab)@, current_source@, v, canonical@)
        },
        r matches Ok(canonical) ==> {
            &&& final(open_tab_paths).lookup(canonical@) == Some(tab_id)
            &&& old(tab).path@.len() > 0 && old(tab).path@ != canonical@ ==>
                final(open_tab_paths).lookup(old(tab).path@) is None
            &&& forall|p: Seq<char>| p != canonical@ && (old(tab).path@.len() == 0 || p != old(tab).path@) ==>
                final(open_tab_paths).lookup(p) == old(open_tab_paths).lookup(p)
        },
        r is Err ==> final(tab)@ == old(tab)@,
        r is Err ==> forall|p: Seq<char>| final(open_tab_paths).lookup(p) == old(open_tab_paths).lookup(p),
        final(open_tab_paths).last_id() == old(open_tab_paths).last_id(),
        r matches Err(LifecycleError::PathAlreadyOpen { path, tab_id: existing }) ==> {
            &&& existing != tab_id
            &&& old(open_tab_paths).lookup(path@) == Some(existing)
            &&& exists|d: String| d@ == spec_markdown_destination(destination@)
                && candidate_for.ensures((&d,), Ok::<String, FileError>(path))
        },
        r matches Err(e) ==> e is File || e is PathAlreadyOpen,
        r matches Err(LifecycleError::File(e)) ==> exists|d: String| d@ == spec_markdown_destination(destination@) && {
            ||| candidate_for.ensures((&d,), Err::<String, FileError>(e))
            ||| exists|cand: String| {
                &&& candidate_for.ensures((&d,), Ok::<String, FileError>(cand))
                &&& (old(open_tab_paths).lookup(cand@) is None || old(open_tab_paths).lookup(cand@) == Some(tab_id))
                &&& {
                    ||| writer.ensures((&cand, &current_source), Err::<DiskVersion, FileError>(e))
                    ||| exists|v: DiskVersion| writer.ensures((&cand, &current_source), Ok::<DiskVersion, FileError>(v))
                        && canonicalize.ensures((&cand,), Err::<String, FileError>(e))
                }
            }
        },
        forall|cand: String|
            (forall|d: String, x: Result<String, FileError>| d@ == spec_markdown_destination(destination@)
                && #[trigger] candidate_for.ensures((&d,), x) ==> x == Ok::<String, FileError>(cand))
            && (#[trigger] old(open_tab_paths).lookup(cand@) matches Some(o) && o != tab_id)
            ==> (r matches Err(LifecycleError::PathAlreadyOpen { path, tab_id: o2 }) && path == cand
                && old(open_tab_paths).lookup(cand@) == Some(o2)),
{
    let dest = markdown_destination(destination.as_str());
    let candidate = match candidate_for(&dest) {
        Ok(c) => c,
        Err(e) => return Err(LifecycleError::File(e)),
    };
    match open_tab_paths.get(candidate.as_str()) {
        Some(existing) => {
            if existing != tab_id {
                return Err(LifecycleError::PathAlreadyOpen { path: candidate, tab_id: existing });
            }
        },
        None => {},
    }
    let version = match writer(&candidate, &current_source) {
        Ok(v) => v,
        Err(e) => return Err(LifecycleError::File(e)),
    };
    let canonical = match canonicalize(&candidate) {
        Ok(c) => c,
        Err(e) => return Err(LifecycleError::File(e)),
    };
    let ghost source = current_source;
    let old_path = tab.path.clone();
    tab.commit_save(current_source, version);
    apply_save_as_identity(&mut tab.path, &mut tab.title, canonical.clone());
    open_tab_paths.replace(old_path.as_str(), canonical.clone(), tab_id);
    proof {
        assert(tab@ == saved_as(old(tab)@, source@, version, canonical@));
        assert({
            &&& dest@ == spec_markdown_destination(destination@)
            &&& candidate_for.ensures((&dest,), Ok::<String, FileError>(candidate))
            &&& (old(open_tab_paths).lookup(candidate@) is None || old(open_tab_paths).lookup(candidate@) == Some(tab_id))
            &&& writer.ensures((&candidate, &source), Ok::<DiskVersion, FileError>(version))
            &&& canonicalize.ensures((&candidate,), Ok::<String, FileError>(canonical))
            &&& tab@ == saved_as(old(tab)@, source@, version, canonical@)
        });
    }
    Ok(canonical)
}

/// The parts of a tab that an external change of its file reads and
/// changes.
#[derive(Debug)]
pub struct ExternalChangeState {
    pub saved_source: String,
    pub disk_version: DiskVersion,
    pub dirty: bool,
    pub disk_state: DiskState,
    pub autosave_blocked: bool,
}

/// What an external change did to a tab.
#[derive(Clone, Debug, PartialEq, Eq)]
pub enum ExternalResolution {
    /// The tab was clean and now shows the text from disk.
    Reloaded(String),
    /// The tab had unsaved edits; the user has to decide.
    Conflict,
}

/// A clean tab takes the new text from disk; a dirty one keeps its edits,
/// enters conflict and stops autosaving.
pub fn apply_external_change(state: &mut ExternalChangeState, disk_source: String, version: DiskVersion) -> (r: ExternalResolution)
    ensures
        old(state).dirty ==> {
            &&& r == ExternalResolution::Conflict
            &&& final(state).disk_state == DiskState::Conflict
            &&& final(state).autosave_blocked
            &&& final(state).saved_source@ == old(state).saved_source@
            &&& final(state).disk_version == old(state).disk_version
            &&& final(state).dirty
        },
        !old(state).dirty ==> {
            &&& r matches ExternalResolution::Reloaded(s) && s@ == disk_source@
            &&& final(state).saved_source@ == disk_source@
            &&& final(state).disk_version == version
            &&& !final(state).dirty
            &&& final(state).disk_state == DiskState::Synced
            &&& !final(state).autosave_blocked
        },
{
    if state.dirty {
        state.disk_state = DiskState::Conflict;
        state.autosave_blocked = true;
        return ExternalResolution::Conflict;
    }
    state.saved_source = disk_source.clone();
    state.disk_version = version;
    state.dirty = false;
    state.disk_state = DiskState::Synced;
    state.autosave_blocked = false;
    ExternalResolution::Reloaded(disk_source)
}

/// Reads the changed file with `reader` and applies the change. When the
/// read fails the tab keeps its text and saved identity but enters
/// conflict and stops autosaving, and the reader's error comes back.
pub fn load_external_change<F: FnOnce(&str) -> Result<String, FileError>>(
    state: &mut ExternalChangeState,
    path: &str,
    version: DiskVersion,
    reader: F,
) -> (r: Result<ExternalResolution, FileError>)
    requires
        reader.requires((path,)),
    ensures
        r matches Err(e) ==> {
            &&& reader.ensures((path,), Err::<String, FileError>(e))
            &&& final(state).disk_state == DiskState::Conflict
            &&& final(state).autosave_blocked
            &&& final(state).saved_source@ == old(state).saved_source@
            &&& final(state).disk_version == old(state).disk_version
            &&& final(state).dirty == old(state).dirty
        },
        r matches Ok(res) ==> exists|source: String| {
            &&& reader.ensures((path,), Ok::<String, FileError>(source))
            &&& (old(state).dirty ==> {
                &&& res == ExternalResolution::Conflict
                &&& final(state).disk_state == DiskState::Conflict
                &&& final(state).autosave_blocked
                &&& final(state).saved_source@ == old(state).saved_source@
                &&& final(state).disk_version == old(state).disk_version
                &&& final(state).dirty
            })
            &&& (!old(state).dirty ==> {
                &&& res matches ExternalResolution::Reloaded(s) && s@ == source@
                &&& final(state).saved_source@ == source@
                &&& final(state).disk_version == version
                &&& !final(state).dirty
                &&& final(state).disk_state == DiskState::Synced
                &&& !final(state).autosave_blocked
            })
        },
{
    let disk_source = match reader(path) {
        Ok(source) => source,
        Err(error) => {
            state.disk_state = DiskState::Conflict;
            state.autosave_blocked = true;
            return Err(error);
        },
    };
    let ghost read = disk_source;
    let res = apply_external_change(state, disk_source, version);
    proof {
        assert(reader.ensures((path,), Ok::<String, FileError>(read)));
    }
    Ok(res)
}

/// The error a workspace scan reports when its worker went away before
/// finishing.
pub fn workspace_scan_disconnected(root: &str) -> (r: Result<(), FileError>)
    ensures
        r matches Err(FileError::Io { path, operation, kind: crate::file::IoErrorKind::Other })
            && path@ == root@ && operation@ == "scan"@,
{
    Err(FileError::other(root, "scan"))
}

/// Some node of the tree (descending into directories only), from
/// position `i` of `f` on, is `p` or lies under it.
pub open spec fn forest_contains(f: Seq<NodeView>, i: int, p: Seq<char>) -> bool
    decreases f, f.len() - i,
{
    if i < 0 || i >= f.len() {
        false
    } else {
        ||| f[i].path == p
        ||| spec_starts_with(f[i].path, p)
        ||| (f[i].is_dir && forest_contains(f[i].children, 0, p))
        ||| forest_contains(f, i + 1, p)
    }
}

proof fn lemma_forest_contains_later(f: Seq<NodeView>, i: int, k: int, p: Seq<char>)
    requires
        0 <= i <= k,
        forest_contains(f, k, p),
    ensures
        forest_contains(f, i, p),
    decreases k - i,
{
    if i < k {
        lemma_forest_contains_later(f, i + 1, k, p);
    }
}

/// The tree holds `p` when any of its nodes, at any depth and under
/// directories expanded or collapsed, is `p` or lies under it: for every
/// tree, path and way down through directories.
pub proof fn law_every_node_is_searched(f: Seq<NodeView>, ip: Seq<int>, p: Seq<char>)
    requires
        node_at(f, ip, false) matches Some(n) && (n.path == p || spec_starts_with(n.path, p)),
    ensures
        forest_contains(f, 0, p),
    decreases ip.len(),
{
    let k = ip[0];
    if ip.len() > 1 {
        law_every_node_is_searched(f[k].children, ip.drop_first(), p);
    }
    lemma_forest_contains_later(f, 0, k, p);
}

/// The tree holds `p` only through some node, at some depth below
/// directories, that is `p` or lies under it.
pub proof fn law_only_nodes_are_found(f: Seq<NodeView>, i: int, p: Seq<char>)
    requires
        0 <= i,
        forest_contains(f, i, p),
    ensures
        exists|ip: Seq<int>| #[trigger] node_at(f, ip, false) matches Some(n)
            && (n.path == p || spec_starts_with(n.path, p)),
    decreases f, f.len() - i,
{
    if f[i].path == p || spec_starts_with(f[i].path, p) {
        assert(node_at(f, seq![i], false) == Some(f[i]));
    } else if f[i].is_dir && forest_contains(f[i].children, 0, p) {
        law_only_nodes_are_found(f[i].children, 0, p);
        let ip = choose|ip: Seq<int>| #[trigger] node_at(f[i].children, ip, false) matches Some(n)
            && (n.path == p || spec_starts_with(n.path, p));
        let full = seq![i] + ip;
        assert(full.drop_first() =~= ip);
        assert(node_at(f, full, false) == node_at(f[i].children, ip, false));
    } else {
        law_only_nodes_are_found(f, i + 1, p);
    }
}

fn contains_from(nodes: &[FileTreeNode], path: &str) -> (r: bool)
    ensures
        r == forest_contains(forest_view(nodes@), 0, path@),
    decreases nodes@,
{
    let ghost f = forest_view(nodes@);
    proof { lemma_forest_view(nodes@); }
    let mut i: usize = 0;
    while i < nodes.len()
        invariant
            0 <= i <= nodes@.len(),
            f == forest_view(nodes@),
            f.len() == nodes@.len(),
            forall|j: int| 0 <= j < nodes@.len() ==> #[trigger] f[j] == crate::state::node_view(nodes@[j]),
            forest_contains(f, 0, path@) == forest_contains(f, i as int, path@),
        decreases nodes@.len() - i,
    {
        if str_eq(nodes[i].path.as_str(), path) || starts_with(nodes[i].path.as_str(), path) {
            return true;
        }
        if nodes[i].is_dir {
            assert(decreases_to!(nodes@ => nodes@[i as int].children@));
            if contains_from(nodes[i].children.as_slice(), path) {
                return true;
            }
        }
        i = i + 1;
    }
    false
}

/// Whether some node of the tree is `path` or lies under it.
pub fn file_tree_contains_path(nodes: &[FileTreeNode], path: &str) -> (r: bool)
    ensures
        r == forest_contains(forest_view(nodes@), 0, path@),
{
    contains_from(nodes, path)
}

/// Whether a file system event calls for rescanning the workspace: it
/// changes a path inside the workspace that is a Markdown file, or (unless
/// it is a creation) that the tree shows or holds.
pub open spec fn spec_requires_rescan(root: Option<Seq<char>>, tree: Seq<NodeView>, event: FileSystemEvent) -> bool {
    match event {
        FileSystemEvent::Error { .. } => false,
        _ => {
            let (p, created) = match event {
                FileSystemEvent::Created(p) => (p@, true),
                FileSystemEvent::Changed(p) => (p@, false),
                FileSystemEvent::Removed(p) => (p@, false),
                FileSystemEvent::Error { .. } => (Seq::empty(), false),
            };
            match root {
                None => false,
                Some(r) => spec_starts_with(p, r) && (spec_is_markdown(p) || (!created && forest_contains(tree, 0, p))),
            }
        },
    }
}

/// Whether `event` calls for rescanning the workspace at `workspace_root`
/// whose tree is `file_tree`.
pub fn workspace_event_requires_rescan(workspace_root: Option<&str>, file_tree: &[FileTreeNode], event: &FileSystemEvent) -> (r: bool)
    ensures
        r == spec_requires_rescan(crate::app::tabs::opt_view(workspace_root), forest_view(file_tree@), *event),
{
    let (path, created) = match event.workspace_mutation() {
        Some(m) => m,
        None => return false,
    };
    let root = match workspace_root {
        Some(root) => root,
        None => return false,
    };
    if !starts_with(path.as_str(), root) {
        return false;
    }
    if is_markdown_file(path.as_str()) {
        return true;
    }
    !created && file_tree_contains_path(file_tree, path.as_str())
}

} // verus!
