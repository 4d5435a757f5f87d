//! The editor's state and every decision it takes about it: which tabs are
//! open and on which files, what is saved, what the user is asked, and in
//! what order. The widgets, the disk and the clock are the application's;
//! it hands their results over as values or as the functions that produce
//! them.

use vstd::prelude::*;
use std::collections::VecDeque;
use crate::app::lifecycle::{
    LifecycleError, SaveTabState, save_as_transition, save_tab_transition, spec_lifecycle_message,
};
use crate::app::tabs::{display_title, spec_display_title, spec_markdown_destination};
use crate::config::recent::spec_insert_front;
use crate::pathname::{is_markdown_file, spec_is_markdown};
use crate::file::FileError;
use crate::file::watcher::FileSystemEvent;
use crate::app::lifecycle::{ExternalChangeState, ExternalResolution, load_external_change, workspace_event_requires_rescan};
use crate::app::modals::{
    clear_shutdown_modal, clear_tab_modal_state, dismiss_modal_state, queue_modal, queue_wf,
    spec_clear_tab_modals,
};
use crate::app::open_tabs::OpenTabPaths;
use crate::app::scan::{MAX_SCAN_PATHS_PER_POLL, ScanPoll, WorkspaceScan, batch_len, same_scan};
use crate::file::spec_file_error_message;
use crate::app::tabs::{autosave_is_eligible, dirty_for_source};
use crate::autosave::{AutosaveKey, autosave_is_current, spec_autosave_is_current};
use crate::config::recent::{RecentFiles, RecentFilesError, spec_recent_error_message, written_back};
use crate::file::watcher::{WatchError, spec_watch_error_message};
use crate::i18n::{Language, LocalizedMessage, TextKey, spec_text};
use crate::state::{AppState, DiskState, DiskVersion, EditorTab, Modal, Notification, NotificationKind, TabId};
use crate::text::{decimal, format_decimal, str_eq};

verus! {

/// Some tab holds unsaved changes.
pub open spec fn any_dirty(tabs: Seq<EditorTab>) -> bool {
    exists|i: int| 0 <= i < tabs.len() && #[trigger] tabs[i].dirty
}

/// No two tabs have the same identity.
pub open spec fn ids_distinct(tabs: Seq<EditorTab>) -> bool {
    forall|i: int, j: int| 0 <= i < j < tabs.len() ==> tabs[i].id != tabs[j].id
}

/// Position of the tab with identity `t`, or -1.
pub open spec fn position_of_tab(tabs: Seq<EditorTab>, t: TabId) -> int
    decreases tabs.len(),
{
    if tabs.len() == 0 {
        -1
    } else if tabs.last().id == t {
        tabs.len() - 1
    } else {
        position_of_tab(tabs.drop_last(), t)
    }
}

pub proof fn lemma_position_of_tab(tabs: Seq<EditorTab>, t: TabId)
    ensures
        -1 <= position_of_tab(tabs, t) < tabs.len(),
        position_of_tab(tabs, t) >= 0 ==> tabs[position_of_tab(tabs, t)].id == t,
        position_of_tab(tabs, t) < 0 ==> forall|j: int| 0 <= j < tabs.len() ==> tabs[j].id != t,
        ids_distinct(tabs) ==> forall|j: int| 0 <= j < tabs.len() && tabs[j].id == t ==> j == position_of_tab(tabs, t),
    decreases tabs.len(),
{
    if tabs.len() > 0 && tabs.last().id != t {
        lemma_position_of_tab(tabs.drop_last(), t);
        assert forall|j: int| 0 <= j < tabs.len() - 1 implies tabs.drop_last()[j] == tabs[j] by {}
        if ids_distinct(tabs) {
            assert(ids_distinct(tabs.drop_last()));
        }
    }
}

/// Every indexed file is shown by the tab the index names for it.
pub open spec fn index_sound(tabs: Seq<EditorTab>, paths: OpenTabPaths) -> bool {
    forall|p: Seq<char>| #[trigger] paths.lookup(p) is Some ==> p.len() > 0 && {
        let i = position_of_tab(tabs, paths.lookup(p)->0);
        0 <= i && tabs[i].path@ == p
    }
}

/// Every tab with a file is the one the index names for that file.
pub open spec fn index_complete(tabs: Seq<EditorTab>, paths: OpenTabPaths) -> bool {
    forall|i: int| 0 <= i < tabs.len() && tabs[i].path@.len() > 0 ==>
        #[trigger] paths.lookup(tabs[i].path@) == Some(tabs[i].id)
}

/// The editor's state, with the path index that keeps one file in one tab
/// and the queue of questions for the user.
pub struct Workbench {
    language: Language,
    state: AppState,
    modal: Option<Modal>,
    notification: Option<Notification>,
    pending_modals: VecDeque<Modal>,
    open_tab_paths: OpenTabPaths,
    allow_quit: bool,
}

impl Workbench {
    /// The state is consistent: tab identities are distinct and were handed
    /// out by the index, the index and the tabs agree, the active tab
    /// exists, and the question queue holds nothing twice.
    pub closed spec fn wf(&self) -> bool {
        &&& ids_distinct(self.state.tabs@)
        &&& forall|i: int| 0 <= i < self.state.tabs@.len() ==>
            1 <= (#[trigger] self.state.tabs@[i]).id.0 <= self.open_tab_paths.last_id()
        &&& index_sound(self.state.tabs@, self.open_tab_paths)
        &&& (self.state.active_tab matches Some(t) ==> position_of_tab(self.state.tabs@, t) >= 0)
        &&& queue_wf(self.modal, self.pending_modals@)
    }

    /// The index names, for every tab with a file, that very tab; so no
    /// file is shown by two tabs.
    pub closed spec fn files_unique(&self) -> bool {
        index_complete(self.state.tabs@, self.open_tab_paths)
    }

    pub closed spec fn app_state(&self) -> AppState {
        self.state
    }

    pub closed spec fn path_index(&self) -> OpenTabPaths {
        self.open_tab_paths
    }

    pub closed spec fn tabs(&self) -> Seq<EditorTab> {
        self.state.tabs@
    }

    pub closed spec fn active(&self) -> Option<TabId> {
        self.state.active_tab
    }

    pub closed spec fn shown_modal(&self) -> Option<Modal> {
        self.modal
    }

    pub closed spec fn waiting_modals(&self) -> Seq<Modal> {
        self.pending_modals@
    }

    pub closed spec fn spec_language(&self) -> Language {
        self.language
    }

    pub closed spec fn spec_notification(&self) -> Option<Notification> {
        self.notification
    }

    pub closed spec fn quit_confirmed(&self) -> bool {
        self.allow_quit
    }

    /// The accessors agree with the state rendering reads: the tabs and
    /// the active tab are those of `app_state()`.
    pub proof fn lemma_accessors_agree(&self)
        ensures
            self.tabs() == self.app_state().tabs@,
            self.active() == self.app_state().active_tab,
    {
    }

    /// The tab that shows the file `p`, by the path index.
    pub closed spec fn tab_for_path(&self, p: Seq<char>) -> Option<TabId> {
        self.open_tab_paths.lookup(p)
    }

    /// The last identity handed to a tab.
    pub closed spec fn last_tab_id(&self) -> u64 {
        self.open_tab_paths.last_id()
    }

    /// `after` is this editor with tab `tab_id` closed: the tab leaves the
    /// strip and its file the path index; the tab at its place (else the
    /// last one) becomes active if it was; its questions leave the queue,
    /// and the shutdown question too once no tab is dirty.
    pub open spec fn tab_closed(self, after: Workbench, tab_id: TabId) -> bool {
        let i = position_of_tab(self.tabs(), tab_id);
        let p = self.tabs()[i].path@;
        let cleared = spec_clear_tab_modals(self.shown_modal(), self.waiting_modals(), tab_id, any_dirty(after.tabs()));
        &&& after.tabs() == self.tabs().remove(i)
        &&& p.len() > 0 ==> after.tab_for_path(p) is None
        &&& forall|q: Seq<char>| q != p ==> #[trigger] after.tab_for_path(q) == self.tab_for_path(q)
        &&& self.active() == Some(tab_id) ==> after.active() == (if after.tabs().len() == 0 {
            None
        } else {
            Some(after.tabs()[if i < after.tabs().len() { i } else { after.tabs().len() - 1 }].id)
        })
        &&& self.active() != Some(tab_id) ==> after.active() == self.active()
        &&& after.shown_modal() == cleared.0
        &&& after.waiting_modals() == cleared.1
        &&& after.spec_language() == self.spec_language()
        &&& after.spec_notification() == self.spec_notification()
    }

    /// A fresh editor: no workspace, no tabs, autosave on, the sidebar
    /// hidden. Startup reports a failed file watcher first, else a Recent
    /// Files list that could not be loaded.
    pub fn new(language: Language, recent_files: RecentFiles, recent_error: Option<RecentFilesError>,
        watcher_error: Option<WatchError>) -> (r: Workbench)
        ensures
            watcher_error matches Some(e) ==> r.spec_notification() matches Some(n)
                && n.message@ == spec_watch_error_message(e) && n.kind == NotificationKind::Error,
            watcher_error is None ==> (recent_error matches Some(e) ==> r.spec_notification() matches Some(n)
                && n.message@ == spec_recent_error_message(e, language) && n.kind == NotificationKind::Error),
            watcher_error is None && recent_error is None ==> r.spec_notification() is None,
            r.wf(),
            r.files_unique(),
            r.tabs().len() == 0,
            r.active() is None,
            r.shown_modal() is None,
            r.waiting_modals().len() == 0,
            r.spec_language() == language,
            !r.quit_confirmed(),
            r.app_state().auto_save_enabled,
            !r.app_state().sidebar_visible,
            r.app_state().workspace_root is None,
            r.app_state().file_tree@.len() == 0,
            r.app_state().recent_files@ == recent_files@,
            r.last_tab_id() == 0,
    {
        let notification = match watcher_error {
            Some(e) => Some(Notification::error(e.localized_message(language))),
            None => match recent_error {
                Some(e) => Some(Notification::error(e.localized_message(language))),
                None => None,
            },
        };
        let r = Workbench {
            language,
            state: AppState {
                workspace_root: None,
                sidebar_visible: false,
                file_tree: Vec::new(),
                tabs: Vec::new(),
                active_tab: None,
                recent_files,
                auto_save_enabled: true,
            },
            modal: None,
            notification,
            pending_modals: VecDeque::new(),
            open_tab_paths: OpenTabPaths::new(),
            allow_quit: false,
        };
        r
    }

    /// The state rendering reads.
    pub fn state(&self) -> (r: &AppState)
        ensures
            *r == self.app_state(),
    {
        &self.state
    }

    /// The interface language.
    pub fn language(&self) -> (r: Language)
        ensures
            r == self.spec_language(),
    {
        self.language
    }

    /// The question shown to the user, if any.
    pub fn modal(&self) -> (r: Option<Modal>)
        ensures
            r == self.shown_modal(),
    {
        self.modal
    }

    /// The message shown to the user, if any.
    pub fn notification(&self) -> (r: Option<&Notification>)
        ensures
            r == match self.spec_notification() {
                Some(n) => Some(&n),
                None => None::<&Notification>,
            },
    {
        self.notification.as_ref()
    }

    /// Position of the tab `tab_id`.
    pub fn tab_index(&self, tab_id: TabId) -> (r: Option<usize>)
        ensures
            match r {
                Some(i) => i == position_of_tab(self.tabs(), tab_id) && i < self.tabs().len(),
                None => position_of_tab(self.tabs(), tab_id) < 0,
            },
    {
        proof { lemma_position_of_tab(self.state.tabs@, tab_id); }
        let mut i = self.state.tabs.len();
        while i > 0
            invariant
                i <= self.state.tabs@.len(),
                forall|j: int| i <= j < self.state.tabs@.len() ==> self.state.tabs@[j].id != tab_id,
                position_of_tab(self.state.tabs@, tab_id) < i,
            decreases i,
        {
            proof { lemma_position_of_tab(self.state.tabs@, tab_id); }
            i = i - 1;
            if self.state.tabs[i].id == tab_id {
                proof {
                    lemma_position_of_tab(self.state.tabs@, tab_id);
                    if position_of_tab(self.state.tabs@, tab_id) != i {
                        lemma_position_of_tab_last(self.state.tabs@, tab_id, i as int);
                    }
                }
                return Some(i);
            }
        }
        None
    }

    /// Whether another tab can still be given a fresh identity.
    pub fn can_open_tab(&self) -> (r: bool)
        ensures
            r == (self.last_tab_id() < u64::MAX),
    {
        self.open_tab_paths.last_handed_out() < u64::MAX
    }

    /// Whether some tab has unsaved changes.
    pub fn has_dirty_tabs(&self) -> (r: bool)
        ensures
            r == any_dirty(self.tabs()),
    {
        let mut i: usize = 0;
        while i < self.state.tabs.len()
            invariant
                0 <= i <= self.state.tabs@.len(),
                forall|j: int| 0 <= j < i ==> !(#[trigger] self.state.tabs@[j]).dirty,
            decreases self.state.tabs@.len() - i,
        {
            if self.state.tabs[i].dirty {
                assert(self.state.tabs@[i as int].dirty);
                return true;
            }
            i = i + 1;
        }
        false
    }

    fn report(&mut self, message: String)
        ensures
            final(self).spec_notification() matches Some(n) && n.message@ == message@
                && n.kind == crate::state::NotificationKind::Error,
            final(self).app_state() == old(self).app_state(),
            final(self).shown_modal() == old(self).shown_modal(),
            final(self).waiting_modals() == old(self).waiting_modals(),
            final(self).path_index() == old(self).path_index(),
            final(self).spec_language() == old(self).spec_language(),
            final(self).quit_confirmed() == old(self).quit_confirmed(),
    {
        self.notification = Some(Notification::error(message));
    }

    /// Switches the interface to the other language.
    pub fn toggle_language(&mut self)
        ensures
            final(self).spec_language() != old(self).spec_language(),
            final(self).app_state() == old(self).app_state(),
            final(self).shown_modal() == old(self).shown_modal(),
            final(self).waiting_modals() == old(self).waiting_modals(),
            final(self).path_index() == old(self).path_index(),
            final(self).spec_notification() == old(self).spec_notification(),
            final(self).quit_confirmed() == old(self).quit_confirmed(),
    {
        self.language = self.language.toggle();
    }

    /// Shows or hides the sidebar; returns whether it is now visible.
    pub fn toggle_sidebar(&mut self) -> (r: bool)
        ensures
            r == !old(self).app_state().sidebar_visible,
            final(self).app_state() == (AppState { sidebar_visible: r, ..old(self).app_state() }),
            final(self).shown_modal() == old(self).shown_modal(),
            final(self).waiting_modals() == old(self).waiting_modals(),
            final(self).path_index() == old(self).path_index(),
            final(self).spec_notification() == old(self).spec_notification(),
            final(self).spec_language() == old(self).spec_language(),
            final(self).quit_confirmed() == old(self).quit_confirmed(),
    {
        self.state.sidebar_visible = !self.state.sidebar_visible;
        self.state.sidebar_visible
    }

    /// Drops the shown message; returns whether there was one.
    pub fn dismiss_notification(&mut self) -> (r: bool)
        ensures
            r == old(self).spec_notification() is Some,
            final(self).spec_notification() is None,
            final(self).app_state() == old(self).app_state(),
            final(self).shown_modal() == old(self).shown_modal(),
            final(self).waiting_modals() == old(self).waiting_modals(),
            final(self).path_index() == old(self).path_index(),
            final(self).spec_language() == old(self).spec_language(),
            final(self).quit_confirmed() == old(self).quit_confirmed(),
    {
        self.notification.take().is_some()
    }

    /// Quitting without saving: the shutdown question and every other one
    /// are dropped and closing the window is allowed from now on.
    pub fn quit_anyway(&mut self)
        requires
            old(self).wf(),
        ensures
            final(self).wf(),
            old(self).files_unique() ==> final(self).files_unique(),
            final(self).quit_confirmed(),
            final(self).shown_modal() is None,
            final(self).waiting_modals().len() == 0,
            final(self).app_state() == old(self).app_state(),
            final(self).path_index() == old(self).path_index(),
    {
        self.allow_quit = true;
        self.modal = None;
        self.pending_modals.clear();
    }

    /// Dismisses the shown question (an external conflict stays until it
    /// is resolved); returns whether anything changed.
    pub fn dismiss_modal(&mut self) -> (r: bool)
        requires
            old(self).wf(),
        ensures
            final(self).wf(),
            old(self).files_unique() ==> final(self).files_unique(),
            old(self).shown_modal() is None ==> !r && final(self).shown_modal() == old(self).shown_modal()
                && final(self).waiting_modals() == old(self).waiting_modals(),
            old(self).shown_modal() matches Some(Modal::ExternalConflict(_)) ==> !r && final(self).shown_modal() == old(self).shown_modal()
                && final(self).waiting_modals() == old(self).waiting_modals(),
            r == (old(self).shown_modal() matches Some(m) && !(m is ExternalConflict)),
            r ==> old(self).waiting_modals().len() == 0 ==> final(self).shown_modal() is None
                && final(self).waiting_modals() == old(self).waiting_modals(),
            r ==> old(self).waiting_modals().len() > 0 ==> final(self).shown_modal() == Some(old(self).waiting_modals()[0])
                && final(self).waiting_modals() == old(self).waiting_modals().drop_first(),
            final(self).app_state() == old(self).app_state(),
            final(self).path_index() == old(self).path_index(),
            final(self).spec_notification() == old(self).spec_notification(),
            final(self).spec_language() == old(self).spec_language(),
    {
        if self.modal.is_none() {
            return false;
        }
        dismiss_modal_state(&mut self.modal, &mut self.pending_modals)
    }
}

proof fn lemma_position_of_tab_last(tabs: Seq<EditorTab>, t: TabId, i: int)
    requires
        0 <= i < tabs.len(),
        tabs[i].id == t,
        forall|j: int| i < j < tabs.len() ==> tabs[j].id != t,
    ensures
        position_of_tab(tabs, t) == i,
    decreases tabs.len(),
{
    if i < tabs.len() - 1 {
        assert(tabs.drop_last()[i] == tabs[i]);
        assert forall|j: int| i < j < tabs.len() - 1 implies tabs.drop_last()[j].id != t by {
            assert(tabs.drop_last()[j] == tabs[j]);
        }
        lemma_position_of_tab_last(tabs.drop_last(), t, i);
    }
}

/// Tabs `b` have the identities and files of tabs `a`, in the same order.
pub open spec fn same_identities(a: Seq<EditorTab>, b: Seq<EditorTab>) -> bool {
    &&& a.len() == b.len()
    &&& forall|i: int| 0 <= i < a.len() ==> (#[trigger] b[i]).id == a[i].id && b[i].path@ == a[i].path@
}

pub proof fn lemma_position_same_identities(a: Seq<EditorTab>, b: Seq<EditorTab>, t: TabId)
    requires
        same_identities(a, b),
    ensures
        position_of_tab(a, t) == position_of_tab(b, t),
    decreases a.len(),
{
    if a.len() > 0 {
        assert(b[b.len() - 1].id == a[a.len() - 1].id);
        assert(same_identities(a.drop_last(), b.drop_last())) by {
            assert forall|i: int| 0 <= i < a.len() - 1 implies (#[trigger] b.drop_last()[i]).id == a.drop_last()[i].id
                && b.drop_last()[i].path@ == a.drop_last()[i].path@ by {
                assert(b.drop_last()[i] == b[i]);
                assert(a.drop_last()[i] == a[i]);
            }
        }
        lemma_position_same_identities(a.drop_last(), b.drop_last(), t);
    }
}

/// Changing what tabs hold, but not who they are or which file they show,
/// keeps the identities distinct and the index in agreement.
pub proof fn lemma_same_identities(a: Seq<EditorTab>, b: Seq<EditorTab>, paths: OpenTabPaths)
    requires
        same_identities(a, b),
    ensures
        ids_distinct(a) ==> ids_distinct(b),
        index_sound(a, paths) ==> index_sound(b, paths),
        index_complete(a, paths) ==> index_complete(b, paths),
        forall|t: TabId| #[trigger] position_of_tab(b, t) == position_of_tab(a, t),
{
    assert forall|t: TabId| #[trigger] position_of_tab(b, t) == position_of_tab(a, t) by {
        lemma_position_same_identities(a, b, t);
    }
    if index_complete(a, paths) {
        assert forall|i: int| 0 <= i < b.len() && b[i].path@.len() > 0 implies
            #[trigger] paths.lookup(b[i].path@) == Some(b[i].id) by {
            assert(paths.lookup(a[i].path@) == Some(a[i].id));
        }
    }
    if index_sound(a, paths) {
        assert forall|p: Seq<char>| #[trigger] paths.lookup(p) is Some implies p.len() > 0 && {
            let i = position_of_tab(b, paths.lookup(p)->0);
            0 <= i && b[i].path@ == p
        } by {
            lemma_position_of_tab(a, paths.lookup(p)->0);
            let i = position_of_tab(a, paths.lookup(p)->0);
            assert(b[i].path@ == a[i].path@);
        }
    }
}

/// The title of a new untitled tab: the plain word, or the word and the
/// tab's number when some tab already has the plain word as its title.
pub open spec fn spec_untitled_title(language: Language, tabs: Seq<EditorTab>, id: TabId) -> Seq<char> {
    let word = spec_text(language, TextKey::Untitled)@;
    if exists|i: int| 0 <= i < tabs.len() && #[trigger] tabs[i].title@ == word {
        word + " "@ + decimal(id.0 as nat)
    } else {
        word
    }
}

/// A new untitled tab never repeats the plain word when some tab already
/// carries it, wherever that tab stands, and takes the plain word when no
/// tab does: for every list of tabs, language and identity.
pub proof fn law_untitled_title_is_numbered_when_taken(language: Language, tabs: Seq<EditorTab>, id: TabId)
    ensures
        (exists|k: int| 0 <= k < tabs.len() && #[trigger] tabs[k].title@ == spec_text(language, TextKey::Untitled)@)
            ==> spec_untitled_title(language, tabs, id) != spec_text(language, TextKey::Untitled)@,
        (forall|k: int| 0 <= k < tabs.len() ==> #[trigger] tabs[k].title@ != spec_text(language, TextKey::Untitled)@)
            ==> spec_untitled_title(language, tabs, id) == spec_text(language, TextKey::Untitled)@,
{
    let word = spec_text(language, TextKey::Untitled)@;
    let t = spec_untitled_title(language, tabs, id);
    if exists|k: int| 0 <= k < tabs.len() && #[trigger] tabs[k].title@ == word {
        assert(t.len() > word.len()) by {
            reveal_strlit(" ");
        }
    }
}

/// What a tab holds right after it was created.
pub open spec fn fresh_tab(t: EditorTab, id: TabId, path: Seq<char>, title: Seq<char>, source: Seq<char>, version: DiskVersion) -> bool {
    &&& t.id == id
    &&& t.path@ == path
    &&& t.title@ == title
    &&& t.saved_source@ == source
    &&& t.disk_version == version
    &&& !t.dirty
    &&& t.disk_state == DiskState::Synced
    &&& t.autosave_generation == 0
    &&& !t.autosave_blocked
}

/// The autosave a tab asks for, if it may autosave at all.
pub open spec fn spec_autosave_request(auto_save_enabled: bool, t: EditorTab) -> Option<(TabId, u64, Seq<char>)> {
    if auto_save_enabled && t.dirty && !t.autosave_blocked && t.path@.len() > 0 {
        Some((t.id, t.autosave_generation, t.path@))
    } else {
        None
    }
}

/// `t` with only its dirtiness, generation, disk state and autosave
/// blocking possibly different from `u`.
pub open spec fn same_text_identity(t: EditorTab, u: EditorTab) -> bool {
    &&& t.id == u.id
    &&& t.path@ == u.path@
    &&& t.title@ == u.title@
    &&& t.saved_source@ == u.saved_source@
    &&& t.disk_version == u.disk_version
}

/// Every tab with unsaved edits still has them: it stays dirty and keeps
/// its saved text (so its editor is never replaced).
pub open spec fn keeps_unsaved_edits(before: Seq<EditorTab>, after: Seq<EditorTab>) -> bool {
    forall|i: int| 0 <= i < before.len() && #[trigger] before[i].dirty ==>
        after[i].dirty && after[i].saved_source@ == before[i].saved_source@
}

/// Every tab keeps its saved text.
pub open spec fn keeps_saved_texts(before: Seq<EditorTab>, after: Seq<EditorTab>) -> bool {
    forall|i: int| 0 <= i < before.len() ==> (#[trigger] after[i]).saved_source@ == before[i].saved_source@
}

/// Every tab but the one at position `k` is as it was.
pub open spec fn unchanged_except(before: Seq<EditorTab>, after: Seq<EditorTab>, k: int) -> bool {
    forall|i: int| 0 <= i < before.len() && i != k ==> #[trigger] after[i] == before[i]
}

/// All tabs but (at most) one are as they were.
pub open spec fn at_most_one_tab_changes(before: Seq<EditorTab>, after: Seq<EditorTab>) -> bool {
    exists|k: int| #[trigger] unchanged_except(before, after, k)
}

/// A tab list in which only the tab at `k` may differ.
proof fn lemma_one_tab_changes(before: Seq<EditorTab>, after: Seq<EditorTab>, k: int)
    requires
        0 <= k < before.len(),
        after == before.update(k, after[k]),
    ensures
        at_most_one_tab_changes(before, after),
        (before[k].dirty ==> after[k].dirty && after[k].saved_source@ == before[k].saved_source@)
            ==> keeps_unsaved_edits(before, after),
        after[k].saved_source@ == before[k].saved_source@ ==> keeps_saved_texts(before, after),
{
    assert(unchanged_except(before, after, k));
}

/// An unchanged tab list.
proof fn lemma_no_tab_changes(tabs: Seq<EditorTab>)
    ensures
        at_most_one_tab_changes(tabs, tabs),
        keeps_unsaved_edits(tabs, tabs),
        keeps_saved_texts(tabs, tabs),
{
    assert(unchanged_except(tabs, tabs, 0));
}

impl Workbench {
    proof fn lemma_update_tab(old_tabs: Seq<EditorTab>, new_tabs: Seq<EditorTab>, i: int)
        requires
            0 <= i < old_tabs.len(),
            new_tabs == old_tabs.update(i, new_tabs[i]),
            new_tabs[i].id == old_tabs[i].id,
            new_tabs[i].path@ == old_tabs[i].path@,
        ensures
            same_identities(old_tabs, new_tabs),
    {
    }

    /// Opens an empty, untitled tab and makes it active.
    pub fn new_tab(&mut self) -> (r: TabId)
        requires
            old(self).wf(),
            old(self).last_tab_id() < u64::MAX,
        ensures
            final(self).wf(),
            old(self).files_unique() ==> final(self).files_unique(),
            r.0 == old(self).last_tab_id() + 1,
            final(self).last_tab_id() == r.0,
            final(self).tabs().len() == old(self).tabs().len() + 1,
            final(self).tabs().drop_last() == old(self).tabs(),
            fresh_tab(final(self).tabs().last(), r, Seq::empty(),
                spec_untitled_title(old(self).spec_language(), old(self).tabs(), r), Seq::empty(), DiskVersion { exists: false, modified: None, len: 0, digest: 0 }),
            final(self).active() == Some(r),
            forall|p: Seq<char>| final(self).tab_for_path(p) == old(self).tab_for_path(p),
            final(self).shown_modal() == old(self).shown_modal(),
            final(self).waiting_modals() == old(self).waiting_modals(),
    {
        let tab_id = self.open_tab_paths.allocate();
        let untitled = self.language.text(TextKey::Untitled);
        let mut taken = false;
        let mut i: usize = 0;
        while i < self.state.tabs.len()
            invariant
                0 <= i <= self.state.tabs@.len(),
                taken == exists|j: int| 0 <= j < i && #[trigger] self.state.tabs@[j].title@ == untitled@,
            decreases self.state.tabs@.len() - i,
        {
            if str_eq(self.state.tabs[i].title.as_str(), untitled) {
                taken = true;
            }
            i = i + 1;
        }
        let title = if taken {
            let mut t = String::from_str(untitled);
            t.append(" ");
            let n = format_decimal(tab_id.0 as u128);
            t.append(n.as_str());
            t
        } else {
            String::from_str(untitled)
        };
        let ghost before = self.state.tabs@;
        self.state.tabs.push(EditorTab {
            id: tab_id,
            path: String::new(),
            title,
            saved_source: String::new(),
            disk_version: DiskVersion::missing(),
            dirty: false,
            disk_state: DiskState::Synced,
            autosave_generation: 0,
            autosave_blocked: false,
        });
        self.state.active_tab = Some(tab_id);
        proof {
            let tabs = self.state.tabs@;
            assert(tabs.drop_last() =~= before);
            assert forall|a: int, b: int| 0 <= a < b < tabs.len() implies tabs[a].id != tabs[b].id by {
                if b == before.len() {
                    assert(tabs[a] == before[a]);
                } else {
                    assert(tabs[a] == before[a] && tabs[b] == before[b]);
                }
            }
            assert forall|k: int| 0 <= k < tabs.len() implies
                1 <= (#[trigger] tabs[k]).id.0 <= self.open_tab_paths.last_id() by {
                if k < before.len() {
                    assert(tabs[k] == before[k]);
                }
            }
            lemma_position_of_tab(tabs, tab_id);
            lemma_position_of_tab_last(tabs, tab_id, before.len() as int);
            lemma_push_keeps_positions(before, tabs);
            if index_complete(before, self.open_tab_paths) {
                assert forall|k: int| 0 <= k < tabs.len() && tabs[k].path@.len() > 0 implies
                    #[trigger] self.open_tab_paths.lookup(tabs[k].path@) == Some(tabs[k].id) by {
                    assert(tabs[k] == before[k]);
                }
            }
            assert(index_sound(tabs, self.open_tab_paths)) by {
                assert forall|p: Seq<char>| #[trigger] self.open_tab_paths.lookup(p) is Some implies p.len() > 0 && {
                    let k = position_of_tab(tabs, self.open_tab_paths.lookup(p)->0);
                    0 <= k && tabs[k].path@ == p
                } by {
                    let t = self.open_tab_paths.lookup(p)->0;
                    lemma_position_of_tab(before, t);
                    let k = position_of_tab(before, t);
                    assert(before[k].id == t);
                    assert(t != tab_id);
                    assert(tabs[k] == before[k]);
                }
            }
        }
        tab_id
    }

    /// The editor's text of tab `tab_id` changed to `current_source`: the
    /// tab is dirty exactly when that differs from the saved text, and its
    /// edit generation moves on. Returns the autosave to schedule, if the
    /// tab may autosave (otherwise any scheduled one is void).
    pub fn editor_changed(&mut self, tab_id: TabId, current_source: &str) -> (r: Option<AutosaveKey>)
        requires
            old(self).wf(),
        ensures
            final(self).wf(),
            old(self).files_unique() ==> final(self).files_unique(),
            position_of_tab(old(self).tabs(), tab_id) < 0 ==> r is None && final(self).tabs() == old(self).tabs(),
            position_of_tab(old(self).tabs(), tab_id) >= 0 ==> {
                let i = position_of_tab(old(self).tabs(), tab_id);
                let t = final(self).tabs()[i];
                &&& final(self).tabs() == old(self).tabs().update(i, t)
                &&& same_text_identity(t, old(self).tabs()[i])
                &&& t.dirty == (current_source@ != old(self).tabs()[i].saved_source@)
                &&& t.autosave_generation == (if old(self).tabs()[i].autosave_generation == u64::MAX {
                    u64::MAX as int
                } else {
                    old(self).tabs()[i].autosave_generation + 1
                })
                &&& t.disk_state == old(self).tabs()[i].disk_state
                &&& t.autosave_blocked == old(self).tabs()[i].autosave_blocked
                &&& match spec_autosave_request(old(self).app_state().auto_save_enabled, t) {
                    Some((id, g, p)) => r matches Some(k) && k.tab_id == id && k.generation == g && k.path@ == p,
                    None => r is None,
                }
            },
            final(self).active() == old(self).active(),
            final(self).shown_modal() == old(self).shown_modal(),
            final(self).waiting_modals() == old(self).waiting_modals(),
            final(self).path_index() == old(self).path_index(),
            final(self).app_state().auto_save_enabled == old(self).app_state().auto_save_enabled,
    {
        let index = match self.tab_index(tab_id) {
            Some(i) => i,
            None => return None,
        };
        let ghost before = self.state.tabs@;
        let dirty = dirty_for_source(self.state.tabs[index].saved_source.as_str(), current_source);
        let generation = self.state.tabs[index].autosave_generation.saturating_add(1);
        self.state.tabs[index].dirty = dirty;
        self.state.tabs[index].autosave_generation = generation;
        proof {
            assert(self.state.tabs@ =~= before.update(index as int, self.state.tabs@[index as int]));
            Self::lemma_update_tab(before, self.state.tabs@, index as int);
            lemma_same_identities(before, self.state.tabs@, self.open_tab_paths);
        }
        self.autosave_request(index)
    }

    fn autosave_request(&self, index: usize) -> (r: Option<AutosaveKey>)
        requires
            index < self.tabs().len(),
        ensures
            match spec_autosave_request(self.app_state().auto_save_enabled, self.tabs()[index as int]) {
                Some((id, g, p)) => r matches Some(k) && k.tab_id == id && k.generation == g && k.path@ == p,
                None => r is None,
            },
    {
        let tab = &self.state.tabs[index];
        if autosave_is_eligible(self.state.auto_save_enabled, tab.dirty, tab.autosave_blocked, tab.path.as_str().is_empty()) {
            Some(AutosaveKey { tab_id: tab.id, generation: tab.autosave_generation, path: tab.path.clone() })
        } else {
            None
        }
    }

    /// The autosave that tab `tab_id` asks for now, if any (schedule it;
    /// otherwise void any scheduled one).
    pub fn autosave_request_for(&self, tab_id: TabId) -> (r: Option<AutosaveKey>)
        ensures
            position_of_tab(self.tabs(), tab_id) < 0 ==> r is None,
            position_of_tab(self.tabs(), tab_id) >= 0 ==> match spec_autosave_request(
                self.app_state().auto_save_enabled,
                self.tabs()[position_of_tab(self.tabs(), tab_id)],
            ) {
                Some((id, g, p)) => r matches Some(k) && k.tab_id == id && k.generation == g && k.path@ == p,
                None => r is None,
            },
    {
        match self.tab_index(tab_id) {
            Some(i) => self.autosave_request(i),
            None => None,
        }
    }

    /// Whether a scheduled autosave is still wanted: its tab still exists
    /// and may autosave, and nothing changed since it was scheduled.
    pub fn autosave_key_is_current(&self, key: &AutosaveKey) -> (r: bool)
        ensures
            r == {
                let i = position_of_tab(self.tabs(), key.tab_id);
                &&& i >= 0
                &&& spec_autosave_request(self.app_state().auto_save_enabled, self.tabs()[i]) is Some
                &&& spec_autosave_is_current(*key, self.tabs()[i].id, self.tabs()[i].autosave_generation,
                    self.tabs()[i].path@, self.tabs()[i].dirty)
            },
    {
        match self.tab_index(key.tab_id) {
            Some(index) => {
                let tab = &self.state.tabs[index];
                autosave_is_eligible(self.state.auto_save_enabled, tab.dirty, tab.autosave_blocked, tab.path.as_str().is_empty())
                    && autosave_is_current(key, tab.id, tab.autosave_generation, tab.path.as_str(), tab.dirty)
            },
            None => false,
        }
    }

    /// Drops the questions about tab `tab_id`, and the shutdown question
    /// once no tab is dirty.
    fn clear_tab_modal(&mut self, tab_id: TabId)
        requires
            old(self).wf(),
        ensures
            final(self).wf(),
            old(self).files_unique() ==> final(self).files_unique(),
            final(self).state == old(self).state,
            final(self).open_tab_paths == old(self).open_tab_paths,
            final(self).language == old(self).language,
            final(self).notification == old(self).notification,
            final(self).allow_quit == old(self).allow_quit,
            forall|m: Modal| final(self).pending_modals@.contains(m) ==> !crate::app::modals::about_tab(m, tab_id),
            final(self).modal matches Some(a) ==> !crate::app::modals::about_tab(a, tab_id),
            final(self).shown_modal() == spec_clear_tab_modals(old(self).shown_modal(), old(self).waiting_modals(),
                tab_id, any_dirty(old(self).tabs())).0,
            final(self).waiting_modals() == spec_clear_tab_modals(old(self).shown_modal(), old(self).waiting_modals(),
                tab_id, any_dirty(old(self).tabs())).1,
    {
        let has_dirty_tabs = self.has_dirty_tabs();
        clear_tab_modal_state(&mut self.modal, &mut self.pending_modals, tab_id, has_dirty_tabs);
    }

    /// Tab `tab_id` conflicts with its file on disk: autosave stops, its
    /// generation moves on (voiding any scheduled autosave), and the user
    /// is asked (once).
    pub fn enter_conflict(&mut self, tab_id: TabId)
        requires
            old(self).wf(),
        ensures
            final(self).wf(),
            old(self).files_unique() ==> final(self).files_unique(),
            position_of_tab(old(self).tabs(), tab_id) < 0 ==> final(self).tabs() == old(self).tabs()
                && final(self).shown_modal() == old(self).shown_modal()
                && final(self).waiting_modals() == old(self).waiting_modals(),
            position_of_tab(old(self).tabs(), tab_id) >= 0 ==> {
                let i = position_of_tab(old(self).tabs(), tab_id);
                let t = final(self).tabs()[i];
                &&& final(self).tabs() == old(self).tabs().update(i, t)
                &&& same_text_identity(t, old(self).tabs()[i])
                &&& t.dirty == old(self).tabs()[i].dirty
                &&& t.disk_state == DiskState::Conflict
                &&& t.autosave_blocked
                &&& (final(self).shown_modal() == Some(Modal::ExternalConflict(tab_id))
                    || final(self).waiting_modals().contains(Modal::ExternalConflict(tab_id)))
            },
            final(self).active() == old(self).active(),
            final(self).path_index() == old(self).path_index(),
            final(self).spec_notification() == old(self).spec_notification(),
            final(self).spec_language() == old(self).spec_language(),
    {
        let index = match self.tab_index(tab_id) {
            Some(i) => i,
            None => return,
        };
        let ghost before = self.state.tabs@;
        self.state.tabs[index].disk_state = DiskState::Conflict;
        self.state.tabs[index].autosave_blocked = true;
        let g = self.state.tabs[index].autosave_generation.saturating_add(1);
        self.state.tabs[index].autosave_generation = g;
        proof {
            assert(self.state.tabs@ =~= before.update(index as int, self.state.tabs@[index as int]));
            Self::lemma_update_tab(before, self.state.tabs@, index as int);
            lemma_same_identities(before, self.state.tabs@, self.open_tab_paths);
        }
        queue_modal(&mut self.modal, &mut self.pending_modals, Modal::ExternalConflict(tab_id));
    }

    /// The file of tab `tab_id` was deleted on disk: the tab keeps its text
    /// and counts as unsaved, autosave stops, and the user is asked (once).
    pub fn enter_deleted(&mut self, tab_id: TabId)
        requires
            old(self).wf(),
        ensures
            final(self).wf(),
            old(self).files_unique() ==> final(self).files_unique(),
            position_of_tab(old(self).tabs(), tab_id) < 0 ==> final(self).tabs() == old(self).tabs()
                && final(self).shown_modal() == old(self).shown_modal()
                && final(self).waiting_modals() == old(self).waiting_modals(),
            position_of_tab(old(self).tabs(), tab_id) >= 0 ==> {
                let i = position_of_tab(old(self).tabs(), tab_id);
                let t = final(self).tabs()[i];
                &&& final(self).tabs() == old(self).tabs().update(i, t)
                &&& same_text_identity(t, old(self).tabs()[i])
                &&& t.dirty
                &&& t.disk_state == DiskState::Deleted
                &&& t.autosave_blocked
                &&& (final(self).shown_modal() == Some(Modal::DeletedFile(tab_id))
                    || final(self).waiting_modals().contains(Modal::DeletedFile(tab_id)))
            },
            final(self).active() == old(self).active(),
            final(self).path_index() == old(self).path_index(),
            final(self).spec_notification() == old(self).spec_notification(),
            final(self).spec_language() == old(self).spec_language(),
    {
        let index = match self.tab_index(tab_id) {
            Some(i) => i,
            None => return,
        };
        let ghost before = self.state.tabs@;
        self.state.tabs[index].dirty = true;
        self.state.tabs[index].disk_state = DiskState::Deleted;
        self.state.tabs[index].autosave_blocked = true;
        let g = self.state.tabs[index].autosave_generation.saturating_add(1);
        self.state.tabs[index].autosave_generation = g;
        proof {
            assert(self.state.tabs@ =~= before.update(index as int, self.state.tabs@[index as int]));
            Self::lemma_update_tab(before, self.state.tabs@, index as int);
            lemma_same_identities(before, self.state.tabs@, self.open_tab_paths);
        }
        queue_modal(&mut self.modal, &mut self.pending_modals, Modal::DeletedFile(tab_id));
    }
}

/// Pushing a tab keeps the position of every other identity.
proof fn lemma_push_keeps_positions(before: Seq<EditorTab>, after: Seq<EditorTab>)
    requires
        after.len() == before.len() + 1,
        after.drop_last() == before,
    ensures
        forall|t: TabId| t != after.last().id ==> #[trigger] position_of_tab(after, t) == position_of_tab(before, t),
{
}

/// Where the tab at position `k` is after the one at position `i` was
/// removed (-1 for none).
pub open spec fn shifted(k: int, i: int) -> int {
    if k < 0 || k == i {
        -1
    } else if k < i {
        k
    } else {
        k - 1
    }
}

proof fn lemma_remove_positions(before: Seq<EditorTab>, i: int)
    requires
        0 <= i < before.len(),
        ids_distinct(before),
    ensures
        ids_distinct(before.remove(i)),
        forall|t: TabId| t != before[i].id ==> #[trigger] position_of_tab(before.remove(i), t)
            == shifted(position_of_tab(before, t), i),
        position_of_tab(before.remove(i), before[i].id) < 0,
{
    let after = before.remove(i);
    assert forall|a: int, b: int| 0 <= a < b < after.len() implies after[a].id != after[b].id by {
        let a0 = if a < i { a } else { a + 1 };
        let b0 = if b < i { b } else { b + 1 };
        assert(after[a] == before[a0] && after[b] == before[b0]);
    }
    assert forall|t: TabId| t != before[i].id implies #[trigger] position_of_tab(after, t)
        == shifted(position_of_tab(before, t), i) by {
        lemma_position_of_tab(before, t);
        lemma_position_of_tab(after, t);
        let k = position_of_tab(before, t);
        if k >= 0 {
            let k2 = if k < i { k } else { k - 1 };
            assert(after[k2] == before[k]);
        } else {
            let k2 = position_of_tab(after, t);
            if k2 >= 0 {
                let k0 = if k2 < i { k2 } else { k2 + 1 };
                assert(after[k2] == before[k0]);
            }
        }
    }
    lemma_position_of_tab(after, before[i].id);
    if position_of_tab(after, before[i].id) >= 0 {
        let k2 = position_of_tab(after, before[i].id);
        let k0 = if k2 < i { k2 } else { k2 + 1 };
        assert(after[k2] == before[k0]);
    }
}

impl Workbench {
    /// Closes tab `tab_id` for good: the tab goes, its file leaves the
    /// index, the tab at the same place (or the last one) becomes active if
    /// the closed one was, and the questions about it are dropped.
    fn remove_tab(&mut self, tab_id: TabId) -> (r: bool)
        requires
            old(self).wf(),
        ensures
            final(self).wf(),
            old(self).files_unique() ==> final(self).files_unique(),
            r == (position_of_tab(old(self).tabs(), tab_id) >= 0),
            !r ==> *final(self) == *old(self),
            r ==> old(self).tab_closed(*final(self), tab_id),
            r ==> forall|m: Modal| final(self).waiting_modals().contains(m) ==> !crate::app::modals::about_tab(m, tab_id),
            r ==> (final(self).shown_modal() matches Some(a) ==> !crate::app::modals::about_tab(a, tab_id)),
            final(self).last_tab_id() == old(self).last_tab_id(),
    {
        let index = match self.tab_index(tab_id) {
            Some(i) => i,
            None => return false,
        };
        let ghost before = self.state.tabs@;
        let ghost paths_before = self.open_tab_paths;
        proof {
            lemma_remove_positions(before, index as int);
            lemma_position_of_tab(before, tab_id);
        }
        let removed = self.state.tabs.remove(index);
        if !removed.path.as_str().is_empty() {
            self.open_tab_paths.remove(removed.path.as_str());
        }
        if self.state.active_tab == Some(tab_id) {
            let len = self.state.tabs.len();
            self.state.active_tab = if len == 0 {
                None
            } else {
                let k = if index < len { index } else { len - 1 };
                proof {
                    lemma_position_of_tab(self.state.tabs@, self.state.tabs@[k as int].id);
                    lemma_position_of_tab_distinct(self.state.tabs@, k as int);
                }
                Some(self.state.tabs[k].id)
            };
        }
        proof {
            let after = self.state.tabs@;
            assert(after == before.remove(index as int));
            assert forall|k: int| 0 <= k < after.len() implies
                1 <= (#[trigger] after[k]).id.0 <= self.open_tab_paths.last_id() by {
                let k0 = if k < index { k } else { k + 1 };
                assert(after[k] == before[k0]);
            }
            lemma_remove_index(before, index as int, paths_before, self.open_tab_paths);
            if let Some(a) = self.state.active_tab {
                if old(self).state.active_tab != Some(tab_id) {
                    lemma_position_of_tab(before, a);
                }
            }
        }
        self.clear_tab_modal(tab_id);
        true
    }

    /// Closing tab `tab_id`: a clean tab closes; a dirty one stays and the
    /// user is asked (once). Returns whether the tab was closed.
    pub fn close_tab(&mut self, tab_id: TabId) -> (r: bool)
        requires
            old(self).wf(),
        ensures
            final(self).wf(),
            old(self).files_unique() ==> final(self).files_unique(),
            position_of_tab(old(self).tabs(), tab_id) < 0 ==> !r && *final(self) == *old(self),
            position_of_tab(old(self).tabs(), tab_id) >= 0 && old(self).tabs()[position_of_tab(old(self).tabs(), tab_id)].dirty ==> {
                &&& !r
                &&& final(self).tabs() == old(self).tabs()
                &&& final(self).active() == old(self).active()
                &&& (final(self).shown_modal() == Some(Modal::CloseTab(tab_id))
                    || final(self).waiting_modals().contains(Modal::CloseTab(tab_id)))
            },
            position_of_tab(old(self).tabs(), tab_id) >= 0 && !old(self).tabs()[position_of_tab(old(self).tabs(), tab_id)].dirty ==> {
                &&& r
                &&& old(self).tab_closed(*final(self), tab_id)
            },
    {
        let index = match self.tab_index(tab_id) {
            Some(i) => i,
            None => return false,
        };
        match crate::app::tabs::close_action(self.state.tabs[index].dirty) {
            crate::app::tabs::CloseAction::Remove => self.remove_tab(tab_id),
            crate::app::tabs::CloseAction::RequestDecision => {
                queue_modal(&mut self.modal, &mut self.pending_modals, Modal::CloseTab(tab_id));
                false
            },
        }
    }

    /// Closing the tab `tab_id` without saving, when that is the question
    /// shown. Returns whether it closed.
    pub fn discard_close_tab(&mut self, tab_id: TabId) -> (r: bool)
        requires
            old(self).wf(),
        ensures
            final(self).wf(),
            old(self).files_unique() ==> final(self).files_unique(),
            old(self).shown_modal() != Some(Modal::CloseTab(tab_id)) ==> !r && *final(self) == *old(self),
            old(self).shown_modal() == Some(Modal::CloseTab(tab_id)) ==>
                r == (position_of_tab(old(self).tabs(), tab_id) >= 0)
                && (r ==> old(self).tab_closed(*final(self), tab_id)),
    {
        if self.modal != Some(Modal::CloseTab(tab_id)) {
            return false;
        }
        self.remove_tab(tab_id)
    }

    /// Closing the tab whose file was deleted, when that is the question
    /// shown. Returns whether it closed.
    pub fn close_deleted_file(&mut self, tab_id: TabId) -> (r: bool)
        requires
            old(self).wf(),
        ensures
            final(self).wf(),
            old(self).files_unique() ==> final(self).files_unique(),
            old(self).shown_modal() != Some(Modal::DeletedFile(tab_id)) ==> !r && *final(self) == *old(self),
            old(self).shown_modal() == Some(Modal::DeletedFile(tab_id)) ==>
                r == (position_of_tab(old(self).tabs(), tab_id) >= 0)
                && (r ==> old(self).tab_closed(*final(self), tab_id)),
    {
        if self.modal != Some(Modal::DeletedFile(tab_id)) {
            return false;
        }
        self.remove_tab(tab_id)
    }

    /// Keeping the local text of tab `tab_id` after an external change,
    /// when that is the question shown: the tab stays in conflict with the
    /// disk but may be saved again, and the question goes.
    pub fn keep_mine(&mut self, tab_id: TabId) -> (r: bool)
        requires
            old(self).wf(),
        ensures
            final(self).wf(),
            old(self).files_unique() ==> final(self).files_unique(),
            r == (old(self).shown_modal() == Some(Modal::ExternalConflict(tab_id))
                && position_of_tab(old(self).tabs(), tab_id) >= 0),
            !r ==> *final(self) == *old(self),
            r ==> {
                let i = position_of_tab(old(self).tabs(), tab_id);
                let t = final(self).tabs()[i];
                &&& final(self).tabs() == old(self).tabs().update(i, t)
                &&& same_text_identity(t, old(self).tabs()[i])
                &&& t.dirty == old(self).tabs()[i].dirty
                &&& t.disk_state == DiskState::Conflict
                &&& !t.autosave_blocked
                &&& final(self).shown_modal() != Some(Modal::ExternalConflict(tab_id))
                &&& final(self).shown_modal() == spec_clear_tab_modals(old(self).shown_modal(),
                    old(self).waiting_modals(), tab_id, any_dirty(final(self).tabs())).0
                &&& final(self).waiting_modals() == spec_clear_tab_modals(old(self).shown_modal(),
                    old(self).waiting_modals(), tab_id, any_dirty(final(self).tabs())).1
            },
    {
        if self.modal != Some(Modal::ExternalConflict(tab_id)) {
            return false;
        }
        let index = match self.tab_index(tab_id) {
            Some(i) => i,
            None => return false,
        };
        let ghost before = self.state.tabs@;
        let mut disk_state = self.state.tabs[index].disk_state;
        let mut blocked = self.state.tabs[index].autosave_blocked;
        crate::app::tabs::apply_conflict_decision(&mut disk_state, &mut blocked, crate::app::tabs::ConflictDecision::KeepMine);
        self.state.tabs[index].disk_state = disk_state;
        self.state.tabs[index].autosave_blocked = blocked;
        proof {
            assert(self.state.tabs@ =~= before.update(index as int, self.state.tabs@[index as int]));
            Self::lemma_update_tab(before, self.state.tabs@, index as int);
            lemma_same_identities(before, self.state.tabs@, self.open_tab_paths);
        }
        self.clear_tab_modal(tab_id);
        true
    }

    /// Keeping the tab whose file was deleted open, when that is the
    /// question shown: its text stays, unsaved, and it may be saved again.
    pub fn keep_deleted_file_open(&mut self, tab_id: TabId) -> (r: bool)
        requires
            old(self).wf(),
        ensures
            final(self).wf(),
            old(self).files_unique() ==> final(self).files_unique(),
            r == (old(self).shown_modal() == Some(Modal::DeletedFile(tab_id))
                && position_of_tab(old(self).tabs(), tab_id) >= 0),
            !r ==> *final(self) == *old(self),
            r ==> {
                let i = position_of_tab(old(self).tabs(), tab_id);
                let t = final(self).tabs()[i];
                &&& final(self).tabs() == old(self).tabs().update(i, t)
                &&& same_text_identity(t, old(self).tabs()[i])
                &&& t.dirty
                &&& t.disk_state == DiskState::Deleted
                &&& !t.autosave_blocked
                &&& final(self).shown_modal() != Some(Modal::DeletedFile(tab_id))
                &&& final(self).shown_modal() == spec_clear_tab_modals(old(self).shown_modal(),
                    old(self).waiting_modals(), tab_id, any_dirty(final(self).tabs())).0
                &&& final(self).waiting_modals() == spec_clear_tab_modals(old(self).shown_modal(),
                    old(self).waiting_modals(), tab_id, any_dirty(final(self).tabs())).1
            },
    {
        if self.modal != Some(Modal::DeletedFile(tab_id)) {
            return false;
        }
        let index = match self.tab_index(tab_id) {
            Some(i) => i,
            None => return false,
        };
        let ghost before = self.state.tabs@;
        let mut dirty = self.state.tabs[index].dirty;
        let mut disk_state = self.state.tabs[index].disk_state;
        crate::app::tabs::mark_deleted(&mut dirty, &mut disk_state);
        self.state.tabs[index].dirty = dirty;
        self.state.tabs[index].disk_state = disk_state;
        self.state.tabs[index].autosave_blocked = false;
        proof {
            assert(self.state.tabs@ =~= before.update(index as int, self.state.tabs@[index as int]));
            Self::lemma_update_tab(before, self.state.tabs@, index as int);
            lemma_same_identities(before, self.state.tabs@, self.open_tab_paths);
        }
        self.clear_tab_modal(tab_id);
        true
    }

    /// Tab `tab_id` now shows `source` as read from disk at `version`: it is
    /// clean, in sync and may autosave; its generation moves on. Returns
    /// whether the tab exists (its editor then shows `source`).
    pub fn replace_from_disk(&mut self, tab_id: TabId, source: String, version: DiskVersion) -> (r: bool)
        requires
            old(self).wf(),
        ensures
            final(self).wf(),
            old(self).files_unique() ==> final(self).files_unique(),
            r == (position_of_tab(old(self).tabs(), tab_id) >= 0),
            !r ==> *final(self) == *old(self),
            r ==> {
                let i = position_of_tab(old(self).tabs(), tab_id);
                let t = final(self).tabs()[i];
                let o = old(self).tabs()[i];
                &&& final(self).tabs() == old(self).tabs().update(i, t)
                &&& t.id == o.id && t.path@ == o.path@ && t.title@ == o.title@
                &&& t.saved_source@ == source@
                &&& t.disk_version == version
                &&& !t.dirty
                &&& t.disk_state == DiskState::Synced
                &&& !t.autosave_blocked
                &&& t.autosave_generation == (if o.autosave_generation == u64::MAX { u64::MAX as int } else { o.autosave_generation + 1 })
            },
            final(self).active() == old(self).active(),
            final(self).shown_modal() == old(self).shown_modal(),
            final(self).waiting_modals() == old(self).waiting_modals(),
            final(self).path_index() == old(self).path_index(),
            final(self).spec_notification() == old(self).spec_notification(),
            final(self).spec_language() == old(self).spec_language(),
    {
        let index = match self.tab_index(tab_id) {
            Some(i) => i,
            None => return false,
        };
        let ghost before = self.state.tabs@;
        self.state.tabs[index].saved_source = source;
        self.state.tabs[index].disk_version = version;
        self.state.tabs[index].dirty = false;
        self.state.tabs[index].disk_state = DiskState::Synced;
        self.state.tabs[index].autosave_blocked = false;
        let g = self.state.tabs[index].autosave_generation.saturating_add(1);
        self.state.tabs[index].autosave_generation = g;
        proof {
            assert(self.state.tabs@ =~= before.update(index as int, self.state.tabs@[index as int]));
            Self::lemma_update_tab(before, self.state.tabs@, index as int);
            lemma_same_identities(before, self.state.tabs@, self.open_tab_paths);
        }
        true
    }

    /// Expands or collapses the directory `path` of the workspace tree;
    /// returns whether there is such a directory.
    pub fn toggle_tree_path(&mut self, path: &str) -> (r: bool)
        requires
            old(self).wf(),
        ensures
            final(self).wf(),
            old(self).files_unique() ==> final(self).files_unique(),
            crate::state::forest_view(final(self).app_state().file_tree@) == crate::ui::file_tree::toggle_tree(
                crate::state::forest_view(old(self).app_state().file_tree@), path@).0,
            r == crate::ui::file_tree::toggle_tree(crate::state::forest_view(old(self).app_state().file_tree@), path@).1,
            final(self).tabs() == old(self).tabs(),
            final(self).active() == old(self).active(),
    {
        crate::ui::file_tree::toggle_expansion(&mut self.state.file_tree, path)
    }

    /// The file of the active tab, if it has one.
    pub fn active_file_path(&self) -> (r: Option<String>)
        requires
            self.wf(),
        ensures
            match self.active() {
                Some(t) => {
                    let p = self.tabs()[position_of_tab(self.tabs(), t)].path@;
                    if p.len() > 0 { r matches Some(s) && s@ == p } else { r is None }
                },
                None => r is None,
            },
    {
        let active = match self.state.active_tab {
            Some(t) => t,
            None => return None,
        };
        let index = match self.tab_index(active) {
            Some(i) => i,
            None => return None,
        };
        if self.state.tabs[index].path.as_str().is_empty() {
            None
        } else {
            Some(self.state.tabs[index].path.clone())
        }
    }
}

proof fn lemma_remove_index(before: Seq<EditorTab>, i: int, pb: OpenTabPaths, pa: OpenTabPaths)
    requires
        0 <= i < before.len(),
        ids_distinct(before),
        index_sound(before, pb),
        before[i].path@.len() > 0 ==> pa.lookup(before[i].path@) is None,
        forall|q: Seq<char>| q != before[i].path@ ==> #[trigger] pa.lookup(q) == pb.lookup(q),
        before[i].path@.len() == 0 ==> pa.lookup(before[i].path@) == pb.lookup(before[i].path@),
    ensures
        index_sound(before.remove(i), pa),
        index_complete(before, pb) ==> index_complete(before.remove(i), pa),
{
    let after = before.remove(i);
    let p = before[i].path@;
    lemma_remove_positions(before, i);
    if index_complete(before, pb) {
        assert forall|k: int| 0 <= k < after.len() && after[k].path@.len() > 0 implies
            #[trigger] pa.lookup(after[k].path@) == Some(after[k].id) by {
            let k0 = if k < i { k } else { k + 1 };
            assert(after[k] == before[k0]);
            assert(pb.lookup(before[k0].path@) == Some(before[k0].id));
            if p.len() > 0 && before[k0].path@ == p {
                assert(pb.lookup(p) == Some(before[i].id));
            }
        }
    }
    assert forall|q: Seq<char>| #[trigger] pa.lookup(q) is Some implies q.len() > 0 && {
        let k = position_of_tab(after, pa.lookup(q)->0);
        0 <= k && after[k].path@ == q
    } by {
        let t = pa.lookup(q)->0;
        assert(pb.lookup(q) == Some(t));
        lemma_position_of_tab(before, t);
        let k = position_of_tab(before, t);
        assert(before[k].path@ == q);
        if t == before[i].id {
            assert(k == i);
        }
        let k2 = if k < i { k } else { k - 1 };
        assert(after[k2] == before[k]);
    }
}

proof fn lemma_position_of_tab_distinct(tabs: Seq<EditorTab>, k: int)
    requires
        0 <= k < tabs.len(),
        ids_distinct(tabs),
    ensures
        position_of_tab(tabs, tabs[k].id) == k,
{
    lemma_position_of_tab(tabs, tabs[k].id);
}

/// `t` is `o` after a successful save of `source` that left the file at
/// `version`.
pub open spec fn saved_after(t: EditorTab, o: EditorTab, source: Seq<char>, version: DiskVersion) -> bool {
    &&& t.id == o.id
    &&& t.path@ == o.path@
    &&& t.title@ == o.title@
    &&& t.saved_source@ == source
    &&& t.disk_version == version
    &&& !t.dirty
    &&& t.disk_state == DiskState::Synced
    &&& t.autosave_generation == o.autosave_generation
    &&& t.autosave_blocked == o.autosave_blocked
}

/// The identities of `tabs`, in order.
pub open spec fn tab_ids(tabs: Seq<EditorTab>) -> Seq<TabId> {
    tabs.map_values(|t: EditorTab| t.id)
}

impl Workbench {
    /// Reports `error` to the user and returns it.
    fn fail<T>(&mut self, error: LifecycleError) -> (r: Result<T, LifecycleError>)
        ensures
            r matches Err(e) && e == error,
            final(self).spec_notification() matches Some(n) && n.message@ == spec_lifecycle_message(error, old(self).spec_language())
                && n.kind == crate::state::NotificationKind::Error,
            final(self).app_state() == old(self).app_state(),
            final(self).shown_modal() == old(self).shown_modal(),
            final(self).waiting_modals() == old(self).waiting_modals(),
            final(self).path_index() == old(self).path_index(),
            final(self).spec_language() == old(self).spec_language(),
            final(self).quit_confirmed() == old(self).quit_confirmed(),
    {
        let message = error.localized_message(self.language);
        self.report(message);
        Err(error)
    }

    /// Saves tab `tab_id` with the editor's `current_source`, written by
    /// `writer` to the tab's file. A missing tab, one blocked by an
    /// unresolved external change, and one without a file are refused; a
    /// failed write changes nothing about the tab. Every failure is also
    /// reported to the user. After a save the questions about the tab are
    /// dropped.
    pub fn save_tab<W>(&mut self, tab_id: TabId, current_source: String, writer: W) -> (r: Result<(), LifecycleError>) where
        W: FnOnce(&String, &String) -> Result<DiskVersion, FileError>,

        requires
            old(self).wf(),
            forall|p: String| writer.requires((&p, &current_source)),
        ensures
            final(self).wf(),
            old(self).files_unique() ==> final(self).files_unique(),
            same_identities(old(self).tabs(), final(self).tabs()),
            forall|j: int| 0 <= j < old(self).tabs().len() && j != position_of_tab(old(self).tabs(), tab_id) ==>
                final(self).tabs()[j] == old(self).tabs()[j],
            final(self).active() == old(self).active(),
            final(self).spec_language() == old(self).spec_language(),
            final(self).quit_confirmed() == old(self).quit_confirmed(),
            final(self).path_index() == old(self).path_index(),
            final(self).app_state().recent_files == old(self).app_state().recent_files,
            position_of_tab(old(self).tabs(), tab_id) < 0 ==>
                (r matches Err(LifecycleError::MissingTab(t)) && t == tab_id && final(self).tabs() == old(self).tabs()),
            position_of_tab(old(self).tabs(), tab_id) >= 0 ==> {
                let i = position_of_tab(old(self).tabs(), tab_id);
                let o = old(self).tabs()[i];
                &&& o.autosave_blocked ==> (r matches Err(LifecycleError::UnresolvedExternalChange(t)) && t == tab_id
                    && final(self).tabs() == old(self).tabs())
                &&& !o.autosave_blocked && o.path@.len() == 0 ==> (r matches Err(LifecycleError::SaveAsRequired(t))
                    && t == tab_id && final(self).tabs() == old(self).tabs())
                &&& !o.autosave_blocked && o.path@.len() > 0 ==> {
                    &&& r is Ok ==> exists|p: String, v: DiskVersion| p@ == o.path@
                        && writer.ensures((&p, &current_source), Ok::<DiskVersion, FileError>(v))
                        && final(self).tabs() == old(self).tabs().update(i, final(self).tabs()[i])
                        && saved_after(final(self).tabs()[i], o, current_source@, v)
                    &&& r is Ok ==> (final(self).shown_modal() matches Some(a) ==> !crate::app::modals::about_tab(a, tab_id))
                    &&& r is Ok ==> forall|m: Modal| final(self).waiting_modals().contains(m) ==> !crate::app::modals::about_tab(m, tab_id)
                    &&& r matches Err(e) ==> final(self).tabs() == old(self).tabs() && exists|p: String, fe: FileError|
                        p@ == o.path@ && writer.ensures((&p, &current_source), Err::<DiskVersion, FileError>(fe))
                        && e == LifecycleError::File(fe)
                }
            },
            r matches Err(e) ==> final(self).spec_notification() matches Some(n)
                && n.message@ == spec_lifecycle_message(e, old(self).spec_language()),
            r is Err ==> final(self).shown_modal() == old(self).shown_modal()
                && final(self).waiting_modals() == old(self).waiting_modals(),
            r is Ok ==> final(self).spec_notification() == old(self).spec_notification(),
    {
        let index = match self.tab_index(tab_id) {
            Some(i) => i,
            None => return self.fail(LifecycleError::MissingTab(tab_id)),
        };
        if self.state.tabs[index].autosave_blocked {
            return self.fail(LifecycleError::UnresolvedExternalChange(tab_id));
        }
        if self.state.tabs[index].path.as_str().is_empty() {
            return self.fail(LifecycleError::SaveAsRequired(tab_id));
        }
        let ghost before = self.state.tabs@;
        let mut st = SaveTabState::from_tab(&self.state.tabs[index]);
        match save_tab_transition(&mut st, current_source, writer) {
            Ok(()) => {
                self.state.tabs[index].saved_source = st.saved_source;
                self.state.tabs[index].disk_version = st.disk_version;
                self.state.tabs[index].dirty = st.dirty;
                self.state.tabs[index].disk_state = st.disk_state;
            },
            Err(e) => {
                return self.fail(e);
            },
        }
        proof {
            assert(self.state.tabs@ =~= before.update(index as int, self.state.tabs@[index as int]));
            Self::lemma_update_tab(before, self.state.tabs@, index as int);
            lemma_same_identities(before, self.state.tabs@, self.open_tab_paths);
        }
        self.clear_tab_modal(tab_id);
        Ok(())
    }

    /// Saves the active tab (there must be one).
    pub fn save_active<W>(&mut self, current_source: String, writer: W) -> (r: Result<(), LifecycleError>) where
        W: FnOnce(&String, &String) -> Result<DiskVersion, FileError>,

        requires
            old(self).wf(),
            forall|p: String| writer.requires((&p, &current_source)),
        ensures
            final(self).wf(),
            old(self).files_unique() ==> final(self).files_unique(),
            same_identities(old(self).tabs(), final(self).tabs()),
            final(self).active() == old(self).active(),
            old(self).active() is None ==> (r matches Err(LifecycleError::NoActiveTab)
                && final(self).tabs() == old(self).tabs()),
            r matches Err(e) ==> final(self).spec_notification() matches Some(n)
                && n.message@ == spec_lifecycle_message(e, old(self).spec_language()),
    {
        match self.state.active_tab {
            Some(tab_id) => self.save_tab(tab_id, current_source, writer),
            None => self.fail(LifecycleError::NoActiveTab),
        }
    }

    /// Saves tab `tab_id` and then closes it. Returns whether it closed.
    pub fn save_and_close_tab<W>(&mut self, tab_id: TabId, current_source: String, writer: W) -> (r: Result<bool, LifecycleError>) where
        W: FnOnce(&String, &String) -> Result<DiskVersion, FileError>,

        requires
            old(self).wf(),
            forall|p: String| writer.requires((&p, &current_source)),
        ensures
            final(self).wf(),
            old(self).files_unique() ==> final(self).files_unique(),
            r is Err ==> same_identities(old(self).tabs(), final(self).tabs()),
            r matches Ok(closed) ==> closed && position_of_tab(final(self).tabs(), tab_id) < 0
                && final(self).tabs().len() + 1 == old(self).tabs().len(),
            position_of_tab(old(self).tabs(), tab_id) < 0 ==>
                (r matches Err(LifecycleError::MissingTab(t)) && t == tab_id && final(self).tabs() == old(self).tabs()),
            position_of_tab(old(self).tabs(), tab_id) >= 0 ==> {
                let i = position_of_tab(old(self).tabs(), tab_id);
                let o = old(self).tabs()[i];
                &&& o.autosave_blocked ==> (r matches Err(LifecycleError::UnresolvedExternalChange(t)) && t == tab_id
                    && final(self).tabs() == old(self).tabs())
                &&& !o.autosave_blocked && o.path@.len() == 0 ==> (r matches Err(LifecycleError::SaveAsRequired(t))
                    && t == tab_id && final(self).tabs() == old(self).tabs())
                &&& !o.autosave_blocked && o.path@.len() > 0 ==> {
                    &&& r is Ok ==> final(self).tabs() == old(self).tabs().remove(i) && exists|p: String, v: DiskVersion|
                        p@ == o.path@ && writer.ensures((&p, &current_source), Ok::<DiskVersion, FileError>(v))
                    &&& r matches Err(e) ==> final(self).tabs() == old(self).tabs() && exists|p: String, fe: FileError|
                        p@ == o.path@ && writer.ensures((&p, &current_source), Err::<DiskVersion, FileError>(fe))
                        && e == LifecycleError::File(fe)
                }
            },
            r matches Err(e) ==> final(self).spec_notification() matches Some(n)
                && n.message@ == spec_lifecycle_message(e, old(self).spec_language()),
    {
        let ghost start = self.state.tabs@;
        match self.save_tab(tab_id, current_source, writer) {
            Ok(()) => {},
            Err(e) => return Err(e),
        }
        let ghost mid = self.state.tabs@;
        proof {
            lemma_same_identities(old(self).state.tabs@, mid, self.open_tab_paths);
            lemma_position_of_tab(mid, tab_id);
            lemma_position_of_tab(start, tab_id);
            lemma_position_same_identities(start, mid, tab_id);
            lemma_remove_positions(mid, position_of_tab(mid, tab_id));
        }
        let closed = self.remove_tab(tab_id);
        proof {
            let i = position_of_tab(start, tab_id);
            assert(mid == start.update(i, mid[i]));
            assert(self.state.tabs@ =~= start.remove(i));
        }
        Ok(closed)
    }

    /// An autosave that comes due: when `key` is still current the tab is
    /// saved with `writer` (a failure is reported); otherwise nothing
    /// happens. Returns whether the tab was saved.
    pub fn run_autosave<W>(&mut self, key: &AutosaveKey, current_source: String, writer: W) -> (r: bool) where
        W: FnOnce(&String, &String) -> Result<DiskVersion, FileError>,

        requires
            old(self).wf(),
            forall|p: String| writer.requires((&p, &current_source)),
        ensures
            final(self).wf(),
            old(self).files_unique() ==> final(self).files_unique(),
            same_identities(old(self).tabs(), final(self).tabs()),
            final(self).active() == old(self).active(),
            !old(self).spec_autosave_key_is_current(*key) ==> !r && *final(self) == *old(self),
            r ==> {
                let i = position_of_tab(old(self).tabs(), key.tab_id);
                exists|p: String, v: DiskVersion| p@ == old(self).tabs()[i].path@
                    && writer.ensures((&p, &current_source), Ok::<DiskVersion, FileError>(v))
                    && final(self).tabs() == old(self).tabs().update(i, final(self).tabs()[i])
                    && saved_after(final(self).tabs()[i], old(self).tabs()[i], current_source@, v)
            },
            old(self).spec_autosave_key_is_current(*key) && !r ==> {
                let i = position_of_tab(old(self).tabs(), key.tab_id);
                &&& final(self).tabs() == old(self).tabs()
                &&& final(self).tabs()[i].dirty
                &&& exists|p: String, fe: FileError| p@ == old(self).tabs()[i].path@
                    && writer.ensures((&p, &current_source), Err::<DiskVersion, FileError>(fe))
                    && (final(self).spec_notification() matches Some(n)
                        && n.message@ == spec_lifecycle_message(LifecycleError::File(fe), old(self).spec_language()))
            },
    {
        if !self.autosave_key_is_current(key) {
            return false;
        }
        proof {
            lemma_position_of_tab(self.state.tabs@, key.tab_id);
        }
        match self.save_tab(key.tab_id, current_source, writer) {
            Ok(()) => true,
            Err(_) => false,
        }
    }

    /// Whether a scheduled autosave is still current (see
    /// `autosave_key_is_current`).
    pub closed spec fn spec_autosave_key_is_current(&self, key: AutosaveKey) -> bool {
        let i = position_of_tab(self.state.tabs@, key.tab_id);
        &&& i >= 0
        &&& spec_autosave_request(self.state.auto_save_enabled, self.state.tabs@[i]) is Some
        &&& spec_autosave_is_current(key, self.state.tabs@[i].id, self.state.tabs@[i].autosave_generation,
            self.state.tabs@[i].path@, self.state.tabs@[i].dirty)
    }

    /// Makes tab `tab_id` active. Leaving a dirty active tab saves it first
    /// when autosave is on (with `active_source`, its editor's text; a
    /// failure is reported). Returns whether the tab exists.
    pub fn switch_tab<W>(&mut self, tab_id: TabId, active_source: String, writer: W) -> (r: bool) where
        W: FnOnce(&String, &String) -> Result<DiskVersion, FileError>,

        requires
            old(self).wf(),
            forall|p: String| writer.requires((&p, &active_source)),
        ensures
            final(self).wf(),
            old(self).files_unique() ==> final(self).files_unique(),
            same_identities(old(self).tabs(), final(self).tabs()),
            r == (position_of_tab(old(self).tabs(), tab_id) >= 0),
            r ==> final(self).active() == Some(tab_id),
            !r ==> *final(self) == *old(self),
            r && old(self).active() == Some(tab_id) ==> *final(self) == *old(self),
            forall|j: int| 0 <= j < old(self).tabs().len() && final(self).tabs()[j] != old(self).tabs()[j] ==>
                old(self).active() == Some(old(self).tabs()[j].id) && old(self).app_state().auto_save_enabled
                    && old(self).tabs()[j].dirty,
            ({
                let k = match old(self).active() {
                    Some(a) => position_of_tab(old(self).tabs(), a),
                    None => -1,
                };
                let o = old(self).tabs()[k];
                let lang = old(self).spec_language();
                let saving = r && old(self).active() != Some(tab_id) && k >= 0
                    && old(self).app_state().auto_save_enabled && o.dirty;
                &&& !saving ==> final(self).spec_notification() == old(self).spec_notification()
                &&& saving && o.autosave_blocked ==> final(self).tabs() == old(self).tabs()
                    && (final(self).spec_notification() matches Some(n) && n.message@
                        == spec_lifecycle_message(LifecycleError::UnresolvedExternalChange(o.id), lang))
                &&& saving && !o.autosave_blocked && o.path@.len() == 0 ==> final(self).tabs() == old(self).tabs()
                    && (final(self).spec_notification() matches Some(n) && n.message@
                        == spec_lifecycle_message(LifecycleError::SaveAsRequired(o.id), lang))
                &&& saving && !o.autosave_blocked && o.path@.len() > 0 ==> {
                    ||| exists|p: String, v: DiskVersion| p@ == o.path@
                        && writer.ensures((&p, &active_source), Ok::<DiskVersion, FileError>(v))
                        && saved_after(final(self).tabs()[k], o, active_source@, v)
                        && final(self).spec_notification() == old(self).spec_notification()
                    ||| exists|p: String, fe: FileError| p@ == o.path@
                        && writer.ensures((&p, &active_source), Err::<DiskVersion, FileError>(fe))
                        && final(self).tabs() == old(self).tabs()
                        && (final(self).spec_notification() matches Some(n) && n.message@
                            == spec_lifecycle_message(LifecycleError::File(fe), lang))
                }
            }),
    {
        if self.tab_index(tab_id).is_none() {
            return false;
        }
        if self.state.active_tab == Some(tab_id) {
            return true;
        }
        if let Some(active_id) = self.state.active_tab {
            let should_save = self.state.auto_save_enabled && match self.tab_index(active_id) {
                Some(i) => self.state.tabs[i].dirty,
                None => false,
            };
            if should_save {
                proof { lemma_position_of_tab(self.state.tabs@, active_id); }
                let _ = self.save_tab(active_id, active_source, writer);
            }
        }
        proof {
            lemma_same_identities(old(self).state.tabs@, self.state.tabs@, self.open_tab_paths);
        }
        self.state.active_tab = Some(tab_id);
        true
    }

    fn navigate_tab<W>(&mut self, direction: crate::app::tabs::TabDirection, active_source: String, writer: W) -> (r: bool) where
        W: FnOnce(&String, &String) -> Result<DiskVersion, FileError>,

        requires
            old(self).wf(),
            forall|p: String| writer.requires((&p, &active_source)),
        ensures
            final(self).wf(),
            old(self).files_unique() ==> final(self).files_unique(),
            same_identities(old(self).tabs(), final(self).tabs()),
            r == (old(self).tabs().len() > 0),
            r ==> Some(final(self).active()->0) == crate::app::tabs::spec_adjacent_tab(
                tab_ids(old(self).tabs()), old(self).active(), direction),
            r ==> final(self).active() is Some,
            !r ==> *final(self) == *old(self),
            forall|j: int| 0 <= j < old(self).tabs().len() && final(self).tabs()[j] != old(self).tabs()[j] ==>
                old(self).active() == Some(old(self).tabs()[j].id) && old(self).app_state().auto_save_enabled
                    && old(self).tabs()[j].dirty,
    {
        let mut ids: Vec<TabId> = Vec::new();
        let mut i: usize = 0;
        while i < self.state.tabs.len()
            invariant
                0 <= i <= self.state.tabs@.len(),
                ids@ == tab_ids(self.state.tabs@).subrange(0, i as int),
            decreases self.state.tabs@.len() - i,
        {
            ids.push(self.state.tabs[i].id);
            assert(tab_ids(self.state.tabs@).subrange(0, i + 1) =~= tab_ids(self.state.tabs@).subrange(0, i as int).push(self.state.tabs@[i as int].id));
            i = i + 1;
        }
        assert(ids@ =~= tab_ids(self.state.tabs@));
        match crate::app::tabs::adjacent_tab_id(ids.as_slice(), self.state.active_tab, direction) {
            Some(t) => {
                proof {
                    let len = ids@.len() as int;
                    let cur = match self.state.active_tab {
                        Some(a) => crate::app::tabs::first_position(ids@, a),
                        None => -1,
                    };
                    if let Some(a) = self.state.active_tab {
                        crate::app::tabs::lemma_first_position(ids@, a);
                    }
                    crate::app::tabs::lemma_adjacent_in_range(len, cur, direction);
                    let k = crate::app::tabs::adjacent_index(len, cur, direction);
                    assert(self.state.tabs@[k].id == t);
                    lemma_position_of_tab(self.state.tabs@, t);
                }
                self.switch_tab(t, active_source, writer)
            },
            None => false,
        }
    }

    /// Makes the next tab active, wrapping around (the first one when none
    /// is active); see `switch_tab`. Returns whether there is a tab.
    pub fn next_tab<W>(&mut self, active_source: String, writer: W) -> (r: bool) where
        W: FnOnce(&String, &String) -> Result<DiskVersion, FileError>,

        requires
            old(self).wf(),
            forall|p: String| writer.requires((&p, &active_source)),
        ensures
            final(self).wf(),
            old(self).files_unique() ==> final(self).files_unique(),
            same_identities(old(self).tabs(), final(self).tabs()),
            r == (old(self).tabs().len() > 0),
            r ==> final(self).active() == crate::app::tabs::spec_adjacent_tab(
                tab_ids(old(self).tabs()), old(self).active(), crate::app::tabs::TabDirection::Next),
            !r ==> *final(self) == *old(self),
            forall|j: int| 0 <= j < old(self).tabs().len() && final(self).tabs()[j] != old(self).tabs()[j] ==>
                old(self).active() == Some(old(self).tabs()[j].id) && old(self).app_state().auto_save_enabled
                    && old(self).tabs()[j].dirty,
    {
        self.navigate_tab(crate::app::tabs::TabDirection::Next, active_source, writer)
    }

    /// Makes the previous tab active, wrapping around (the last one when
    /// none is active); see `switch_tab`. Returns whether there is a tab.
    pub fn previous_tab<W>(&mut self, active_source: String, writer: W) -> (r: bool) where
        W: FnOnce(&String, &String) -> Result<DiskVersion, FileError>,

        requires
            old(self).wf(),
            forall|p: String| writer.requires((&p, &active_source)),
        ensures
            final(self).wf(),
            old(self).files_unique() ==> final(self).files_unique(),
            same_identities(old(self).tabs(), final(self).tabs()),
            r == (old(self).tabs().len() > 0),
            r ==> final(self).active() == crate::app::tabs::spec_adjacent_tab(
                tab_ids(old(self).tabs()), old(self).active(), crate::app::tabs::TabDirection::Previous),
            !r ==> *final(self) == *old(self),
            forall|j: int| 0 <= j < old(self).tabs().len() && final(self).tabs()[j] != old(self).tabs()[j] ==>
                old(self).active() == Some(old(self).tabs()[j].id) && old(self).app_state().auto_save_enabled
                    && old(self).tabs()[j].dirty,
    {
        self.navigate_tab(crate::app::tabs::TabDirection::Previous, active_source, writer)
    }
}

/// Tabs `b` have the identities of tabs `a`, in the same order.
pub open spec fn same_ids(a: Seq<EditorTab>, b: Seq<EditorTab>) -> bool {
    &&& a.len() == b.len()
    &&& forall|i: int| 0 <= i < a.len() ==> (#[trigger] b[i]).id == a[i].id
}

pub proof fn lemma_position_same_ids(a: Seq<EditorTab>, b: Seq<EditorTab>, t: TabId)
    requires
        same_ids(a, b),
    ensures
        position_of_tab(a, t) == position_of_tab(b, t),
    decreases a.len(),
{
    if a.len() > 0 {
        assert(b[b.len() - 1].id == a[a.len() - 1].id);
        assert(same_ids(a.drop_last(), b.drop_last())) by {
            assert forall|i: int| 0 <= i < a.len() - 1 implies (#[trigger] b.drop_last()[i]).id == a.drop_last()[i].id by {
                assert(b.drop_last()[i] == b[i]);
                assert(a.drop_last()[i] == a[i]);
            }
        }
        lemma_position_same_ids(a.drop_last(), b.drop_last(), t);
    }
}

/// Opening `path` in `w` can fail with `e`: `path` is no Markdown file, or
/// `canonicalize` failed with `e`, or the canonical file is not open and
/// `load` failed with `e`.
pub open spec fn open_failed_with<C, L>(w: Workbench, path: String, canonicalize: C, load: L, e: FileError) -> bool where
    C: FnOnce(&String) -> Result<String, FileError>,
    L: FnOnce(&String) -> Result<(String, DiskVersion), FileError>,
{
    ||| !spec_is_markdown(path@) && (e matches FileError::NotMarkdown { path: p } && p@ == path@)
    ||| spec_is_markdown(path@) && canonicalize.ensures((&path,), Err::<String, FileError>(e))
    ||| spec_is_markdown(path@) && exists|c: String| {
        &&& canonicalize.ensures((&path,), Ok::<String, FileError>(c))
        &&& w.tab_for_path(c@) is None
        &&& #[trigger] load.ensures((&c,), Err::<(String, DiskVersion), FileError>(e))
    }
}

/// `after` wrote Recent Files back with `store`: a failed write is
/// reported, a successful one changes no notification.
pub open spec fn recent_written_back<S>(before: Workbench, after: Workbench, store: S) -> bool where
    S: FnOnce(&String, &Vec<String>) -> Result<(), RecentFilesError>,
{
    exists|w: Result<(), RecentFilesError>| {
        &&& written_back(after.app_state().recent_files@, store, w)
        &&& w matches Err(e) ==> (after.spec_notification() matches Some(n)
            && n.message@ == spec_recent_error_message(e, before.spec_language()))
        &&& w is Ok ==> after.spec_notification() == before.spec_notification()
    }
}

impl Workbench {
    fn record_recent_open<S>(&mut self, path: String, store: S) where
        S: FnOnce(&String, &Vec<String>) -> Result<(), RecentFilesError>,

        requires
            old(self).wf(),
            forall|c: String, ps: Vec<String>| store.requires((&c, &ps)),
        ensures
            spec_is_markdown(path@) ==> recent_written_back(*old(self), *final(self), store),
            final(self).wf(),
            old(self).files_unique() ==> final(self).files_unique(),
            final(self).state.tabs == old(self).state.tabs,
            final(self).state.active_tab == old(self).state.active_tab,
            final(self).state.file_tree == old(self).state.file_tree,
            final(self).open_tab_paths == old(self).open_tab_paths,
            final(self).modal == old(self).modal,
            final(self).pending_modals@ == old(self).pending_modals@,
            spec_is_markdown(path@) ==> final(self).state.recent_files@.paths
                == spec_insert_front(old(self).state.recent_files@.paths, path@, old(self).state.recent_files@.capacity),
            !spec_is_markdown(path@) ==> final(self).state.recent_files@ == old(self).state.recent_files@,
            final(self).language == old(self).language,
    {
        let copy = path.clone();
        let result = self.state.recent_files.record_success(path, Some(copy), store);
        let ghost written = result;
        match result {
            Ok(()) => {},
            Err(e) => {
                let m = e.localized_message(self.language);
                self.report(m);
            },
        }
        proof {
            if spec_is_markdown(path@) {
                assert(written_back(self.app_state().recent_files@, store, written));
            }
        }
    }

    /// Opens the Markdown file `path`: `canonicalize` names the file; a file
    /// already shown by a tab only activates that tab, otherwise `load`
    /// reads its text and disk version into a new, active tab. The file
    /// moves to the front of Recent Files. A path that does not name a
    /// Markdown file, and any failure of the two, are refused (and
    /// reported) with nothing else changed.
    #[verifier::spinoff_prover]
    pub fn open_file<C, L, S>(&mut self, path: String, canonicalize: C, load: L, store: S) -> (r: Result<TabId, LifecycleError>) where
        C: FnOnce(&String) -> Result<String, FileError>,
        L: FnOnce(&String) -> Result<(String, DiskVersion), FileError>,
        S: FnOnce(&String, &Vec<String>) -> Result<(), RecentFilesError>,

        requires
            old(self).wf(),
            old(self).last_tab_id() < u64::MAX,
            forall|p: String| canonicalize.requires((&p,)),
            forall|p: String, c: String| canonicalize.ensures((&p,), Ok::<String, FileError>(c)) ==> c@.len() > 0,
            forall|p: String| load.requires((&p,)),
            forall|c: String, ps: Vec<String>| store.requires((&c, &ps)),
        ensures
            final(self).wf(),
            old(self).files_unique() ==> final(self).files_unique(),
            !spec_is_markdown(path@) ==> (r matches Err(LifecycleError::File(FileError::NotMarkdown { path: p })) && p@ == path@),
            r is Err ==> final(self).tabs() == old(self).tabs() && final(self).active() == old(self).active()
                && final(self).path_index() == old(self).path_index()
                && final(self).app_state().recent_files == old(self).app_state().recent_files,
            final(self).spec_language() == old(self).spec_language(),
            r matches Err(e) ==> e is File,
            r matches Err(LifecycleError::File(e)) ==> open_failed_with(*old(self), path, canonicalize, load, e),
            r matches Err(e) ==> final(self).spec_notification() matches Some(n)
                && n.message@ == spec_lifecycle_message(e, old(self).spec_language()),
            r matches Ok(t) ==> spec_is_markdown(path@) && final(self).active() == Some(t) && exists|c: String| {
                &&& canonicalize.ensures((&path,), Ok::<String, FileError>(c))
                &&& final(self).tab_for_path(c@) == Some(t)
                &&& old(self).tab_for_path(c@) matches Some(x) ==> t == x && final(self).tabs() == old(self).tabs()
                &&& old(self).tab_for_path(c@) is None ==> {
                    &&& t.0 == old(self).last_tab_id() + 1
                    &&& final(self).tabs().drop_last() == old(self).tabs()
                    &&& final(self).tabs().len() == old(self).tabs().len() + 1
                    &&& exists|source: String, version: DiskVersion|
                        load.ensures((&c,), Ok::<(String, DiskVersion), FileError>((source, version)))
                        && fresh_tab(final(self).tabs().last(), t, c@, spec_display_title(c@), source@, version)
                }
                &&& spec_is_markdown(c@) ==> final(self).app_state().recent_files@.paths == spec_insert_front(
                    old(self).app_state().recent_files@.paths, c@, old(self).app_state().recent_files@.capacity)
                &&& spec_is_markdown(c@) ==> recent_written_back(*old(self), *final(self), store)
            },
    {
        if !is_markdown_file(path.as_str()) {
            return self.fail(LifecycleError::File(FileError::NotMarkdown { path }));
        }
        let ghost requested = path;
        let canonical = match canonicalize(&path) {
            Ok(c) => c,
            Err(e) => return self.fail(LifecycleError::File(e)),
        };
        match self.open_tab_paths.get(canonical.as_str()) {
            Some(t) => {
                proof {
                    lemma_position_of_tab(self.state.tabs@, t);
                }
                self.state.active_tab = Some(t);
                self.record_recent_open(canonical.clone(), store);
                proof {
                    assert(canonicalize.ensures((&requested,), Ok::<String, FileError>(canonical)));
                    assert({
                        &&& canonicalize.ensures((&requested,), Ok::<String, FileError>(canonical))
                        &&& self.tab_for_path(canonical@) == Some(t)
                        &&& old(self).tab_for_path(canonical@) matches Some(x) ==> t == x && self.tabs() == old(self).tabs()
                        &&& spec_is_markdown(canonical@) ==> self.app_state().recent_files@.paths == spec_insert_front(
                            old(self).app_state().recent_files@.paths, canonical@, old(self).app_state().recent_files@.capacity)
                    });
                }
                return Ok(t);
            },
            None => {},
        }
        let (source, version) = match load(&canonical) {
            Ok(x) => x,
            Err(e) => {
                proof {
                    assert(canonicalize.ensures((&requested,), Ok::<String, FileError>(canonical)));
                    assert(load.ensures((&canonical,), Err::<(String, DiskVersion), FileError>(e)));
                }
                return self.fail(LifecycleError::File(e));
            },
        };
        let ghost loaded = (source, version);
        let ghost before = self.state.tabs@;
        let ghost paths_before = self.open_tab_paths;
        let tab_id = self.open_tab_paths.insert(canonical.clone());
        let title = display_title(canonical.as_str());
        self.state.tabs.push(EditorTab {
            id: tab_id,
            path: canonical.clone(),
            title,
            saved_source: source,
            disk_version: version,
            dirty: false,
            disk_state: DiskState::Synced,
            autosave_generation: 0,
            autosave_blocked: false,
        });
        self.state.active_tab = Some(tab_id);
        proof {
            let tabs = self.state.tabs@;
            let c = canonical@;
            assert(tabs.drop_last() =~= before);
            assert forall|a: int, b: int| 0 <= a < b < tabs.len() implies tabs[a].id != tabs[b].id by {
                if b == before.len() {
                    assert(tabs[a] == before[a]);
                } else {
                    assert(tabs[a] == before[a] && tabs[b] == before[b]);
                }
            }
            assert forall|k: int| 0 <= k < tabs.len() implies
                1 <= (#[trigger] tabs[k]).id.0 <= self.open_tab_paths.last_id() by {
                if k < before.len() {
                    assert(tabs[k] == before[k]);
                }
            }
            lemma_position_of_tab(tabs, tab_id);
            lemma_position_of_tab_last(tabs, tab_id, before.len() as int);
            lemma_push_keeps_positions(before, tabs);
            if index_complete(before, paths_before) {
                assert forall|k: int| 0 <= k < tabs.len() && tabs[k].path@.len() > 0 implies
                    #[trigger] self.open_tab_paths.lookup(tabs[k].path@) == Some(tabs[k].id) by {
                    if k < before.len() {
                        assert(tabs[k] == before[k]);
                        if before[k].path@ == c {
                            assert(paths_before.lookup(c) == Some(before[k].id));
                        }
                    }
                }
            }
            assert forall|q: Seq<char>| #[trigger] self.open_tab_paths.lookup(q) is Some implies q.len() > 0 && {
                let k = position_of_tab(tabs, self.open_tab_paths.lookup(q)->0);
                0 <= k && tabs[k].path@ == q
            } by {
                if q != c {
                    let t = paths_before.lookup(q)->0;
                    lemma_position_of_tab(before, t);
                    let k = position_of_tab(before, t);
                    assert(before[k].id == t);
                    assert(t != tab_id);
                    assert(tabs[k] == before[k]);
                } else {
                    assert(self.open_tab_paths.lookup(c) == Some(tab_id));
                    assert(position_of_tab(tabs, tab_id) == before.len());
                    assert(tabs[before.len() as int].path@ == c);
                }
            }
        }
        self.record_recent_open(canonical.clone(), store);
        proof {
            assert(canonicalize.ensures((&requested,), Ok::<String, FileError>(canonical)));
            assert(load.ensures((&canonical,), Ok::<(String, DiskVersion), FileError>(loaded)));
            assert(fresh_tab(self.state.tabs@.last(), tab_id, canonical@, spec_display_title(canonical@), loaded.0@, loaded.1));
            assert(self.tabs().drop_last() == old(self).tabs());
            assert(old(self).tab_for_path(canonical@) is None);
            assert(self.tab_for_path(canonical@) == Some(tab_id));
            assert(!(old(self).tab_for_path(canonical@) matches Some(x)));
            assert({
                &&& canonicalize.ensures((&requested,), Ok::<String, FileError>(canonical))
                &&& self.tab_for_path(canonical@) == Some(tab_id)
                &&& old(self).tab_for_path(canonical@) matches Some(x) ==> tab_id == x && self.tabs() == old(self).tabs()
                &&& old(self).tab_for_path(canonical@) is None ==> {
                    &&& tab_id.0 == old(self).last_tab_id() + 1
                    &&& self.tabs().drop_last() == old(self).tabs()
                    &&& self.tabs().len() == old(self).tabs().len() + 1
                    &&& exists|source: String, version: DiskVersion|
                        load.ensures((&canonical,), Ok::<(String, DiskVersion), FileError>((source, version)))
                        && fresh_tab(self.tabs().last(), tab_id, canonical@, spec_display_title(canonical@), source@, version)
                }
                &&& spec_is_markdown(canonical@) ==> self.app_state().recent_files@.paths == spec_insert_front(
                    old(self).app_state().recent_files@.paths, canonical@, old(self).app_state().recent_files@.capacity)
                &&& spec_is_markdown(canonical@) ==> recent_written_back(*old(self), *self, store)
            });
        }
        Ok(tab_id)
    }

    /// Save As for tab `tab_id` (see `save_as_transition`): on success the
    /// tab shows the written file under its name, may autosave again, the
    /// file moves to the front of Recent Files, and the questions about the
    /// tab are dropped. Failures are reported and change no tab.
    pub fn save_as<R, W, C, S>(
        &mut self,
        tab_id: TabId,
        destination: String,
        current_source: String,
        candidate_for: R,
        writer: W,
        canonicalize: C,
        store: S,
    ) -> (r: Result<String, LifecycleError>) where
        R: FnOnce(&String) -> Result<String, FileError>,
        W: FnOnce(&String, &String) -> Result<DiskVersion, FileError>,
        C: FnOnce(&String) -> Result<String, FileError>,
        S: FnOnce(&String, &Vec<String>) -> Result<(), RecentFilesError>,

        requires
            old(self).wf(),
            forall|c: String, ps: Vec<String>| store.requires((&c, &ps)),
            forall|d: String| candidate_for.requires((&d,)),
            forall|c: String| writer.requires((&c, &current_source)),
            forall|c: String| canonicalize.requires((&c,)),
            forall|p: String, c: String| canonicalize.ensures((&p,), Ok::<String, FileError>(c)) ==> c@.len() > 0,
        ensures
            final(self).wf(),
            final(self).active() == old(self).active(),
            position_of_tab(old(self).tabs(), tab_id) < 0 ==> (r matches Err(LifecycleError::MissingTab(t)) && t == tab_id),
            position_of_tab(old(self).tabs(), tab_id) >= 0 ==> (r matches Err(e) ==> e is File || e is PathAlreadyOpen),
            r matches Err(LifecycleError::File(e)) ==> exists|d: String| d@ == spec_markdown_destination(destination@) && {
                ||| candidate_for.ensures((&d,), Err::<String, FileError>(e))
                ||| exists|cand: String| {
                    &&& candidate_for.ensures((&d,), Ok::<String, FileError>(cand))
                    &&& (old(self).tab_for_path(cand@) is None || old(self).tab_for_path(cand@) == Some(tab_id))
                    &&& {
                        ||| writer.ensures((&cand, &current_source), Err::<DiskVersion, FileError>(e))
                        ||| exists|v: DiskVersion| writer.ensures((&cand, &current_source), Ok::<DiskVersion, FileError>(v))
                            && canonicalize.ensures((&cand,), Err::<String, FileError>(e))
                    }
                }
            },
            r matches Err(LifecycleError::PathAlreadyOpen { path, tab_id: existing }) ==> {
                &&& existing != tab_id
                &&& old(self).tab_for_path(path@) == Some(existing)
                &&& exists|d: String| d@ == spec_markdown_destination(destination@)
                    && candidate_for.ensures((&d,), Ok::<String, FileError>(path))
            },
            forall|cand: String|
                position_of_tab(old(self).tabs(), tab_id) >= 0
                && (forall|d: String, x: Result<String, FileError>| d@ == spec_markdown_destination(destination@)
                    && #[trigger] candidate_for.ensures((&d,), x) ==> x == Ok::<String, FileError>(cand))
                && (#[trigger] old(self).tab_for_path(cand@) matches Some(o) && o != tab_id)
                ==> (r matches Err(LifecycleError::PathAlreadyOpen { path, tab_id: o2 }) && path == cand
                    && old(self).tab_for_path(cand@) == Some(o2)),
            r is Err ==> final(self).tabs() == old(self).tabs()
                && forall|p: Seq<char>| #[trigger] final(self).tab_for_path(p) == old(self).tab_for_path(p),
            r matches Err(e) ==> final(self).spec_notification() matches Some(n)
                && n.message@ == spec_lifecycle_message(e, old(self).spec_language()),
            r matches Ok(c) ==> {
                let i = position_of_tab(old(self).tabs(), tab_id);
                let o = old(self).tabs()[i];
                let t = final(self).tabs()[i];
                &&& i >= 0
                &&& final(self).tabs() == old(self).tabs().update(i, t)
                &&& t.id == tab_id && t.path@ == c@ && t.title@ == spec_display_title(c@)
                &&& t.saved_source@ == current_source@ && !t.dirty && t.disk_state == DiskState::Synced
                &&& !t.autosave_blocked
                &&& final(self).tab_for_path(c@) == Some(tab_id)
                &&& o.path@.len() > 0 && o.path@ != c@ ==> final(self).tab_for_path(o.path@) is None
                &&& forall|q: Seq<char>| q != c@ && (o.path@.len() == 0 || q != o.path@) ==>
                    #[trigger] final(self).tab_for_path(q) == old(self).tab_for_path(q)
                &&& (old(self).files_unique() && (old(self).tab_for_path(c@) is None
                    || old(self).tab_for_path(c@) == Some(tab_id))) ==> final(self).files_unique()
                &&& spec_is_markdown(c@) ==> recent_written_back(*old(self), *final(self), store)
            },
            r is Err ==> (old(self).files_unique() ==> final(self).files_unique()),
    {
        let index = match self.tab_index(tab_id) {
            Some(i) => i,
            None => return self.fail(LifecycleError::MissingTab(tab_id)),
        };
        proof {
            lemma_position_of_tab(self.state.tabs@, tab_id);
            assert(1 <= self.state.tabs@[index as int].id.0 <= self.open_tab_paths.last_id());
        }
        let ghost before = self.state.tabs@;
        let ghost paths_before = self.open_tab_paths;
        let ghost o = self.state.tabs@[index as int];
        let mut st = SaveTabState::from_tab(&self.state.tabs[index]);
        let canonical = match save_as_transition(
            tab_id,
            &mut st,
            &mut self.open_tab_paths,
            destination,
            current_source,
            candidate_for,
            writer,
            canonicalize,
        ) {
            Ok(c) => c,
            Err(e) => {
                proof {
                    assert forall|q: Seq<char>| #[trigger] self.open_tab_paths.lookup(q) is Some implies q.len() > 0 && {
                        let k = position_of_tab(before, self.open_tab_paths.lookup(q)->0);
                        0 <= k && before[k].path@ == q
                    } by {
                        assert(paths_before.lookup(q) == self.open_tab_paths.lookup(q));
                    }
                    if index_complete(before, paths_before) {
                        assert forall|k: int| 0 <= k < before.len() && before[k].path@.len() > 0 implies
                            #[trigger] self.open_tab_paths.lookup(before[k].path@) == Some(before[k].id) by {
                            assert(paths_before.lookup(before[k].path@) == self.open_tab_paths.lookup(before[k].path@));
                        }
                    }
                }
                return self.fail(e);
            },
        };
        self.state.tabs[index].path = st.path;
        self.state.tabs[index].title = st.title;
        self.state.tabs[index].saved_source = st.saved_source;
        self.state.tabs[index].disk_version = st.disk_version;
        self.state.tabs[index].dirty = st.dirty;
        self.state.tabs[index].disk_state = st.disk_state;
        self.state.tabs[index].autosave_blocked = false;
        proof {
            let tabs = self.state.tabs@;
            let c = canonical@;
            let pa = self.open_tab_paths;
            assert(tabs =~= before.update(index as int, tabs[index as int]));
            assert(same_ids(before, tabs));
            assert forall|t: TabId| #[trigger] position_of_tab(tabs, t) == position_of_tab(before, t) by {
                lemma_position_same_ids(before, tabs, t);
            }
            assert forall|a: int, b: int| 0 <= a < b < tabs.len() implies tabs[a].id != tabs[b].id by {
                assert(tabs[a].id == before[a].id && tabs[b].id == before[b].id);
            }
            assert forall|k: int| 0 <= k < tabs.len() implies
                1 <= (#[trigger] tabs[k]).id.0 <= pa.last_id() by {
                assert(tabs[k].id == before[k].id);
            }
            lemma_position_of_tab_distinct(before, index as int);
            assert forall|q: Seq<char>| #[trigger] pa.lookup(q) is Some implies q.len() > 0 && {
                let k = position_of_tab(tabs, pa.lookup(q)->0);
                0 <= k && tabs[k].path@ == q
            } by {
                if q != c && (o.path@.len() == 0 || q != o.path@) {
                    let t = paths_before.lookup(q)->0;
                    lemma_position_of_tab(before, t);
                    let k = position_of_tab(before, t);
                    assert(tabs[k] == before[k]);
                }
            }
            if index_complete(before, paths_before) && (paths_before.lookup(c) is None || paths_before.lookup(c) == Some(tab_id)) {
                assert forall|k: int| 0 <= k < tabs.len() && tabs[k].path@.len() > 0 implies
                    #[trigger] pa.lookup(tabs[k].path@) == Some(tabs[k].id) by {
                    if k != index {
                        assert(tabs[k] == before[k]);
                        let q = before[k].path@;
                        assert(paths_before.lookup(q) == Some(before[k].id));
                        if o.path@.len() > 0 && q == o.path@ {
                            assert(paths_before.lookup(o.path@) == Some(o.id));
                        }
                        if q == c {
                            assert(before[k].id != tab_id);
                        }
                    }
                }
            }
        }
        self.record_recent_open(canonical.clone(), store);
        self.clear_tab_modal(tab_id);
        Ok(canonical)
    }
}

/// `t` is `o` saved with `source`: the text is saved, the tab clean and in
/// sync, and it is the same tab on the same file.
pub open spec fn saved_with(t: EditorTab, o: EditorTab, source: Seq<char>) -> bool {
    &&& t.id == o.id
    &&& t.path@ == o.path@
    &&& t.title@ == o.title@
    &&& t.saved_source@ == source
    &&& !t.dirty
    &&& t.disk_state == DiskState::Synced
}

/// An autosave the workbench asks for (`autosave_request_for`) is current:
/// run at once, `run_autosave` saves the tab. The key names the tab, its
/// edit generation and its file, and the tab may autosave.
pub proof fn law_requested_autosave_is_current(w: Workbench, tab_id: TabId, key: AutosaveKey)
    requires
        position_of_tab(w.tabs(), tab_id) >= 0,
        spec_autosave_request(w.app_state().auto_save_enabled, w.tabs()[position_of_tab(w.tabs(), tab_id)])
            == Some((key.tab_id, key.generation, key.path@)),
    ensures
        w.spec_autosave_key_is_current(key),
{
    lemma_position_of_tab(w.tabs(), tab_id);
}

/// An autosave scheduled for an earlier edit generation of its tab, or for
/// a tab that is gone, never writes: `run_autosave` refuses it.
pub proof fn law_stale_autosave_is_refused(w: Workbench, key: AutosaveKey)
    requires
        position_of_tab(w.tabs(), key.tab_id) >= 0 ==>
            w.tabs()[position_of_tab(w.tabs(), key.tab_id)].autosave_generation != key.generation,
    ensures
        !w.spec_autosave_key_is_current(key),
{
}

/// No two tabs show the same file, when the index names each tab for its
/// file.
pub proof fn law_one_tab_per_file(w: Workbench, i: int, j: int)
    requires
        w.wf(),
        w.files_unique(),
        0 <= i < w.tabs().len(),
        0 <= j < w.tabs().len(),
        i != j,
        w.tabs()[i].path@.len() > 0,
    ensures
        w.tabs()[i].path@ != w.tabs()[j].path@,
{
    if w.tabs()[i].path@ == w.tabs()[j].path@ {
        assert(w.open_tab_paths.lookup(w.tabs()[i].path@) == Some(w.tabs()[i].id));
        assert(w.open_tab_paths.lookup(w.tabs()[j].path@) == Some(w.tabs()[j].id));
        if i < j {
            assert(w.tabs()[i].id != w.tabs()[j].id);
        } else {
            assert(w.tabs()[j].id != w.tabs()[i].id);
        }
    }
}

/// `e` is what saving the dirty tab `o` with `source` reports: a blocked
/// tab is not written, an untitled one needs Save As, and otherwise
/// `writer` failed with the error carried.
pub open spec fn tab_save_error<W>(e: LifecycleError, o: EditorTab, source: String, writer: W) -> bool where
    W: Fn(&String, &String) -> Result<DiskVersion, FileError>,
{
    ||| o.autosave_blocked && e == LifecycleError::UnresolvedExternalChange(o.id)
    ||| !o.autosave_blocked && o.path@.len() == 0 && e == LifecycleError::SaveAsRequired(o.id)
    ||| !o.autosave_blocked && o.path@.len() > 0 && exists|p: String, fe: FileError| p@ == o.path@
        && writer.ensures((&p, &source), Err::<DiskVersion, FileError>(fe)) && e == LifecycleError::File(fe)
}

/// `errors` holds one error per tab left dirty (`after`), in tab order,
/// each the one its save reported.
pub open spec fn save_all_errors<W>(errors: Seq<LifecycleError>, before: Seq<EditorTab>, after: Seq<EditorTab>,
    sources: Seq<String>, writer: W) -> bool where
    W: Fn(&String, &String) -> Result<DiskVersion, FileError>,
    decreases before.len(),
{
    if before.len() == 0 {
        errors.len() == 0
    } else if after.len() > 0 && after.last().dirty {
        &&& errors.len() > 0
        &&& tab_save_error(errors.last(), before.last(), sources.last(), writer)
        &&& save_all_errors(errors.drop_last(), before.drop_last(), after.drop_last(), sources.drop_last(), writer)
    } else {
        save_all_errors(errors, before.drop_last(), after.drop_last(), sources.drop_last(), writer)
    }
}

impl Workbench {
    /// Saves every dirty tab, each with its editor's text (`sources`, in
    /// tab order). A tab blocked by an unresolved external change is not
    /// written and counts as a failure, as does a failed write; all
    /// failures are reported together. When every dirty tab was saved, the
    /// shutdown question is dropped.
    pub fn save_all<W>(&mut self, sources: &Vec<String>, writer: &W) -> (r: Result<(), LifecycleError>) where
        W: Fn(&String, &String) -> Result<DiskVersion, FileError>,

        requires
            old(self).wf(),
            sources@.len() == old(self).tabs().len(),
            forall|p: String, s: String| writer.requires((&p, &s)),
        ensures
            final(self).wf(),
            old(self).files_unique() ==> final(self).files_unique(),
            same_identities(old(self).tabs(), final(self).tabs()),
            final(self).active() == old(self).active(),
            forall|i: int| 0 <= i < old(self).tabs().len() && !old(self).tabs()[i].dirty ==>
                #[trigger] final(self).tabs()[i] == old(self).tabs()[i],
            forall|i: int| 0 <= i < old(self).tabs().len() && old(self).tabs()[i].dirty ==>
                #[trigger] final(self).tabs()[i] == old(self).tabs()[i]
                    || saved_with(final(self).tabs()[i], old(self).tabs()[i], sources@[i]@),
            forall|i: int| 0 <= i < old(self).tabs().len() && old(self).tabs()[i].dirty
                && old(self).tabs()[i].autosave_blocked ==> #[trigger] final(self).tabs()[i] == old(self).tabs()[i],
            forall|i: int| #![trigger final(self).tabs()[i]]
                0 <= i < old(self).tabs().len() && old(self).tabs()[i].dirty && !old(self).tabs()[i].autosave_blocked ==> {
                let o = old(self).tabs()[i];
                let t = final(self).tabs()[i];
                ||| exists|p: String, v: DiskVersion| p@ == o.path@
                    && writer.ensures((&p, &sources@[i]), Ok::<DiskVersion, FileError>(v))
                    && saved_after(t, o, sources@[i]@, v)
                ||| t == o && (o.path@.len() == 0 || exists|p: String, fe: FileError| p@ == o.path@
                    && writer.ensures((&p, &sources@[i]), Err::<DiskVersion, FileError>(fe)))
            },
            r is Ok <==> forall|i: int| 0 <= i < final(self).tabs().len() ==> !(#[trigger] final(self).tabs()[i]).dirty,
            r is Ok ==> final(self).shown_modal() != Some(Modal::Shutdown)
                && !final(self).waiting_modals().contains(Modal::Shutdown),
            r matches Err(e) ==> e is SaveAll && (final(self).spec_notification() matches Some(n)
                && n.message@ == spec_lifecycle_message(e, old(self).spec_language())),
            r matches Err(LifecycleError::SaveAll { errors }) ==>
                save_all_errors(errors@, old(self).tabs(), final(self).tabs(), sources@, *writer),
    {
        let ghost orig = self.state.tabs@;
        let ghost unique = index_complete(orig, self.open_tab_paths);
        let mut errors: Vec<LifecycleError> = Vec::new();
        let mut i: usize = 0;
        while i < self.state.tabs.len()
            invariant
                0 <= i <= self.state.tabs@.len(),
                self.wf(),
                unique ==> self.files_unique(),
                sources@.len() == orig.len(),
                forall|p: String, s: String| writer.requires((&p, &s)),
                same_identities(orig, self.state.tabs@),
                self.state.active_tab == old(self).state.active_tab,
                self.language == old(self).language,
                self.allow_quit == old(self).allow_quit,
                forall|j: int| i <= j < orig.len() ==> #[trigger] self.state.tabs@[j] == orig[j],
                forall|j: int| 0 <= j < orig.len() && !orig[j].dirty ==> #[trigger] self.state.tabs@[j] == orig[j],
                forall|j: int| 0 <= j < i && orig[j].dirty ==> #[trigger] self.state.tabs@[j] == orig[j]
                    || saved_with(self.state.tabs@[j], orig[j], sources@[j]@),
                forall|j: int| 0 <= j < i && orig[j].dirty && orig[j].autosave_blocked ==>
                    #[trigger] self.state.tabs@[j] == orig[j],
                forall|j: int| #![trigger self.state.tabs@[j]]
                    0 <= j < i && orig[j].dirty && !orig[j].autosave_blocked ==> {
                    let o = orig[j];
                    let t = self.state.tabs@[j];
                    ||| exists|p: String, v: DiskVersion| p@ == o.path@
                        && writer.ensures((&p, &sources@[j]), Ok::<DiskVersion, FileError>(v))
                        && saved_after(t, o, sources@[j]@, v)
                    ||| t == o && (o.path@.len() == 0 || exists|p: String, fe: FileError| p@ == o.path@
                        && writer.ensures((&p, &sources@[j]), Err::<DiskVersion, FileError>(fe)))
                },
                errors@.len() == 0 <==> forall|j: int| 0 <= j < i ==> !(#[trigger] self.state.tabs@[j]).dirty,
                save_all_errors(errors@, orig.subrange(0, i as int), self.state.tabs@.subrange(0, i as int),
                    sources@.subrange(0, i as int), *writer),
            decreases orig.len() - i,
        {
            let ghost cur = self.state.tabs@;
            let ghost errs = errors@;
            if self.state.tabs[i].dirty {
                let tab_id = self.state.tabs[i].id;
                proof {
                    lemma_position_of_tab_distinct(cur, i as int);
                }
                if crate::app::tabs::save_all_tab_is_writable(self.state.tabs[i].dirty, self.state.tabs[i].autosave_blocked) {
                    let source = sources[i].clone();
                    match self.save_tab(tab_id, source, writer) {
                        Ok(()) => {},
                        Err(e) => {
                            proof {
                                assert(self.state.tabs@ == cur);
                                assert(tab_save_error(e, orig[i as int], sources@[i as int], *writer));
                            }
                            errors.push(e);
                        },
                    }
                } else {
                    proof {
                        assert(tab_save_error(LifecycleError::UnresolvedExternalChange(tab_id), orig[i as int],
                            sources@[i as int], *writer));
                    }
                    errors.push(LifecycleError::UnresolvedExternalChange(tab_id));
                }
                proof {
                    lemma_same_identities(cur, self.state.tabs@, self.open_tab_paths);
                    assert forall|j: int| 0 <= j < orig.len() && j != i implies #[trigger] self.state.tabs@[j] == cur[j] by {
                    }
                    if self.state.tabs@[i as int] != orig[i as int] {
                        let p = choose|p: String, v: DiskVersion| p@ == cur[i as int].path@
                            && writer.ensures((&p, &sources@[i as int]), Ok::<DiskVersion, FileError>(v))
                            && self.state.tabs@ == cur.update(i as int, self.state.tabs@[i as int])
                            && saved_after(self.state.tabs@[i as int], cur[i as int], sources@[i as int]@, v);
                    }
                }
            }
            proof {
                let n = (i + 1) as int;
                assert(self.state.tabs@.subrange(0, i as int) =~= cur.subrange(0, i as int));
                assert(orig.subrange(0, n).drop_last() =~= orig.subrange(0, i as int));
                assert(self.state.tabs@.subrange(0, n).drop_last() =~= self.state.tabs@.subrange(0, i as int));
                assert(sources@.subrange(0, n).drop_last() =~= sources@.subrange(0, i as int));
                if errors@.len() > errs.len() {
                    assert(errors@.drop_last() =~= errs);
                }
            }
            i = i + 1;
        }
        proof {
            assert(orig.subrange(0, orig.len() as int) =~= orig);
            assert(self.state.tabs@.subrange(0, orig.len() as int) =~= self.state.tabs@);
            assert(sources@.subrange(0, orig.len() as int) =~= sources@);
        }
        if errors.len() > 0 {
            return self.fail(LifecycleError::SaveAll { errors });
        }
        let has_dirty_tabs = self.has_dirty_tabs();
        clear_shutdown_modal(&mut self.modal, &mut self.pending_modals, has_dirty_tabs);
        Ok(())
    }
}

impl Workbench {
    /// Closing the window: allowed at once when quitting was confirmed or
    /// nothing is dirty; otherwise every dirty tab is saved (see
    /// `save_all`), and if any stays dirty the shutdown question is asked
    /// and the window stays.
    pub fn should_close_window<W>(&mut self, sources: &Vec<String>, writer: &W) -> (r: bool) where
        W: Fn(&String, &String) -> Result<DiskVersion, FileError>,

        requires
            old(self).wf(),
            sources@.len() == old(self).tabs().len(),
            forall|p: String, s: String| writer.requires((&p, &s)),
        ensures
            final(self).wf(),
            old(self).files_unique() ==> final(self).files_unique(),
            same_identities(old(self).tabs(), final(self).tabs()),
            final(self).active() == old(self).active(),
            old(self).quit_confirmed() ==> r && *final(self) == *old(self),
            r <==> (old(self).quit_confirmed()
                || forall|i: int| 0 <= i < final(self).tabs().len() ==> !(#[trigger] final(self).tabs()[i]).dirty),
            !r ==> (final(self).shown_modal() == Some(Modal::Shutdown)
                || final(self).waiting_modals().contains(Modal::Shutdown)),
            forall|i: int| 0 <= i < old(self).tabs().len() && (!old(self).tabs()[i].dirty
                || old(self).tabs()[i].autosave_blocked) ==> #[trigger] final(self).tabs()[i] == old(self).tabs()[i],
            forall|i: int| #![trigger final(self).tabs()[i]]
                !old(self).quit_confirmed() && 0 <= i < old(self).tabs().len() && old(self).tabs()[i].dirty
                && !old(self).tabs()[i].autosave_blocked ==> {
                let o = old(self).tabs()[i];
                let t = final(self).tabs()[i];
                ||| exists|p: String, v: DiskVersion| p@ == o.path@
                    && writer.ensures((&p, &sources@[i]), Ok::<DiskVersion, FileError>(v))
                    && saved_after(t, o, sources@[i]@, v)
                ||| t == o && (o.path@.len() == 0 || exists|p: String, fe: FileError| p@ == o.path@
                    && writer.ensures((&p, &sources@[i]), Err::<DiskVersion, FileError>(fe)))
            },
    {
        let has_dirty_tabs = self.has_dirty_tabs();
        match crate::app::tabs::window_close_action(self.allow_quit, has_dirty_tabs) {
            crate::app::tabs::WindowCloseAction::Allow => {
                proof {
                    lemma_same_identities(self.state.tabs@, self.state.tabs@, self.open_tab_paths);
                }
                true
            },
            crate::app::tabs::WindowCloseAction::SaveAll => {
                let saved = self.save_all(sources, writer);
                if saved.is_ok() && !self.has_dirty_tabs() {
                    true
                } else {
                    queue_modal(&mut self.modal, &mut self.pending_modals, Modal::Shutdown);
                    false
                }
            },
        }
    }

    /// Opens entry `index` of Recent Files (see `open_file`). An entry that
    /// no longer exists is refused; a file that is gone is also dropped
    /// from the list and reported as missing: `compare_form` gives the form
    /// it is compared in, and where it gives none the stored path itself is
    /// dropped.
    pub fn open_recent<C, L, K, S>(&mut self, index: usize, canonicalize: C, load: L, compare_form: K, store: &S) -> (r: Result<(), LifecycleError>) where
        C: FnOnce(&String) -> Result<String, FileError>,
        L: FnOnce(&String) -> Result<(String, DiskVersion), FileError>,
        K: FnOnce(&String) -> Option<String>,
        S: Fn(&String, &Vec<String>) -> Result<(), RecentFilesError>,

        requires
            old(self).wf(),
            forall|c: String, ps: Vec<String>| store.requires((&c, &ps)),
            old(self).last_tab_id() < u64::MAX,
            forall|p: String| canonicalize.requires((&p,)),
            forall|p: String, c: String| canonicalize.ensures((&p,), Ok::<String, FileError>(c)) ==> c@.len() > 0,
            forall|p: String| load.requires((&p,)),
            forall|p: String| compare_form.requires((&p,)),
        ensures
            final(self).wf(),
            old(self).files_unique() ==> final(self).files_unique(),
            index >= old(self).app_state().recent_files@.paths.len() ==>
                (r matches Err(LifecycleError::MissingRecentEntry(k)) && k == index)
                && final(self).tabs() == old(self).tabs(),
            r matches Err(LifecycleError::MissingRecentEntry(_)) ==> index >= old(self).app_state().recent_files@.paths.len(),
            r matches Err(LifecycleError::File(e)) ==> !(e is NotFound) && exists|p: String|
                p@ == old(self).app_state().recent_files@.paths[index as int]
                && open_failed_with(*old(self), p, canonicalize, load, e),
            r matches Err(LifecycleError::MissingRecentFile { .. }) ==> exists|p: String, e: FileError|
                p@ == old(self).app_state().recent_files@.paths[index as int]
                && e is NotFound && open_failed_with(*old(self), p, canonicalize, load, e),
            r is Err ==> final(self).tabs() == old(self).tabs() && final(self).active() == old(self).active(),
            r matches Err(LifecycleError::MissingRecentFile { path, .. }) ==>
                index < old(self).app_state().recent_files@.paths.len()
                && path@ == old(self).app_state().recent_files@.paths[index as int],
            r matches Err(LifecycleError::MissingRecentFile { path, cleanup_error }) ==> {
                let rf = old(self).app_state().recent_files@;
                &&& written_back(final(self).app_state().recent_files@, store, match cleanup_error {
                    Some(e) => Err(e),
                    None => Ok(()),
                })
                &&& exists|p: String, c: Option<String>|
                    p@ == path@ && compare_form.ensures((&p,), c)
                    && final(self).app_state().recent_files@.paths == crate::config::recent::remove_all(
                        rf.paths, if rf.canonicalize_on_record && c is Some { c->0@ } else { path@ })
            },
            r matches Err(e) ==> (e is File || e is MissingRecentEntry || e is MissingRecentFile)
                && (final(self).spec_notification() matches Some(n)
                && n.message@ == spec_lifecycle_message(e, old(self).spec_language())),
            r is Ok ==> index < old(self).app_state().recent_files@.paths.len() && exists|p: String, t: TabId, c: String| {
                &&& p@ == old(self).app_state().recent_files@.paths[index as int]
                &&& final(self).active() == Some(t)
                &&& canonicalize.ensures((&p,), Ok::<String, FileError>(c))
                &&& final(self).tab_for_path(c@) == Some(t)
                &&& old(self).tab_for_path(c@) matches Some(x) ==> t == x && final(self).tabs() == old(self).tabs()
                &&& old(self).tab_for_path(c@) is None ==> {
                    &&& t.0 == old(self).last_tab_id() + 1
                    &&& final(self).tabs().drop_last() == old(self).tabs()
                    &&& exists|source: String, version: DiskVersion|
                        load.ensures((&c,), Ok::<(String, DiskVersion), FileError>((source, version)))
                        && fresh_tab(final(self).tabs().last(), t, c@, spec_display_title(c@), source@, version)
                }
                &&& spec_is_markdown(c@) ==> final(self).app_state().recent_files@.paths == spec_insert_front(
                    old(self).app_state().recent_files@.paths, c@, old(self).app_state().recent_files@.capacity)
                &&& spec_is_markdown(c@) ==> recent_written_back(*old(self), *final(self), store)
            },
    {
        let path = {
            let paths = self.state.recent_files.paths();
            if index >= paths.len() {
                return self.fail(LifecycleError::MissingRecentEntry(index));
            }
            paths[index].clone()
        };
        proof {
            assert(path@ == self.state.recent_files@.paths[index as int]);
        }
        match self.open_file(path.clone(), canonicalize, load, store) {
            Ok(_) => Ok(()),
            Err(LifecycleError::File(FileError::NotFound { path: p, operation: o })) => {
                let comparison = match compare_form(&path) {
                    Some(c) => Some(c),
                    None => Some(path.clone()),
                };
                let removed = self.state.recent_files.remove(path.as_str(), comparison, store);
                let ghost written = removed;
                let cleanup_error = match removed {
                    Ok(()) => None,
                    Err(e) => Some(e),
                };
                proof {
                    assert(written_back(self.app_state().recent_files@, store, written));
                    match written {
                        Ok(u) => {
                            assert(cleanup_error is None);
                            assert(u == ());
                        },
                        Err(e) => assert(cleanup_error == Some(e)),
                    }
                }
                self.fail(LifecycleError::MissingRecentFile { path, cleanup_error })
            },
            Err(e) => Err(e),
        }
    }

    /// Reloading tab `tab_id` from disk, when its external conflict is the
    /// question shown: `inspect` reports the file's version and `read` its
    /// text. A file that is gone turns the question into a deleted-file
    /// one. Returns the text the editor now shows, if it was replaced.
    pub fn reload_external_file<I, Rd>(&mut self, tab_id: TabId, inspect: I, read: Rd) -> (r: Result<Option<String>, LifecycleError>) where
        I: FnOnce(&String) -> Result<DiskVersion, FileError>,
        Rd: FnOnce(&String) -> Result<String, FileError>,

        requires
            old(self).wf(),
            forall|p: String| inspect.requires((&p,)),
            forall|p: String| read.requires((&p,)),
        ensures
            final(self).wf(),
            old(self).files_unique() ==> final(self).files_unique(),
            same_identities(old(self).tabs(), final(self).tabs()),
            final(self).active() == old(self).active(),
            old(self).shown_modal() != Some(Modal::ExternalConflict(tab_id)) ==>
                (r matches Ok(None) && *final(self) == *old(self)),
            r matches Ok(Some(source)) ==> {
                let i = position_of_tab(old(self).tabs(), tab_id);
                &&& i >= 0
                &&& final(self).tabs()[i].saved_source@ == source@
                &&& !final(self).tabs()[i].dirty
                &&& final(self).tabs()[i].disk_state == DiskState::Synced
                &&& !final(self).tabs()[i].autosave_blocked
                &&& final(self).shown_modal() != Some(Modal::ExternalConflict(tab_id))
            },
            old(self).shown_modal() == Some(Modal::ExternalConflict(tab_id)) ==>
                #[trigger] external_reload_handled(*old(self), *final(self), tab_id, inspect, read, r),
            r matches Err(e) ==> final(self).spec_notification() matches Some(n)
                && n.message@ == spec_lifecycle_message(e, old(self).spec_language()),
    {
        let ghost start = *self;
        let ghost inspect_fn = inspect;
        let ghost read_fn = read;
        if self.modal != Some(Modal::ExternalConflict(tab_id)) {
            proof {
                lemma_same_identities(self.state.tabs@, self.state.tabs@, self.open_tab_paths);
            }
            return Ok(None);
        }
        let index = match self.tab_index(tab_id) {
            Some(i) => i,
            None => {
                proof {
                    lemma_same_identities(self.state.tabs@, self.state.tabs@, self.open_tab_paths);
                }
                return self.fail(LifecycleError::MissingTab(tab_id));
            },
        };
        let path = self.state.tabs[index].path.clone();
        proof { lemma_position_of_tab(start.tabs(), tab_id); }
        let inspected = inspect(&path);
        let ghost inspected_as = inspected;
        proof {
            assert(path@ == start.tabs()[index as int].path@ && inspect_fn.ensures((&path,), inspected_as));
        }
        let version = match inspected {
            Ok(v) => v,
            Err(e) => {
                proof {
                    lemma_same_identities(self.state.tabs@, self.state.tabs@, self.open_tab_paths);
                }
                let r = self.fail(LifecycleError::File(e));
                proof {
                    assert(external_reload_handled(start, *self, tab_id, inspect_fn, read_fn, r));
                }
                return r;
            },
        };
        if !version.exists {
            let ghost before = self.state.tabs@;
            self.enter_deleted(tab_id);
            proof {
                lemma_position_of_tab(before, tab_id);
                assert(self.state.tabs@ =~= before.update(index as int, self.state.tabs@[index as int]));
                Self::lemma_update_tab(before, self.state.tabs@, index as int);
                assert(deletion_entered(start, *self, index as int, tab_id));
                assert(external_reload_handled(start, *self, tab_id, inspect_fn, read_fn, Ok(None)));
            }
            return Ok(None);
        }
        let read_result = read(&path);
        let ghost got = read_result;
        proof {
            assert(read_fn.ensures((&path,), got));
        }
        let source = match read_result {
            Ok(s) => s,
            Err(e) => {
                proof {
                    lemma_same_identities(self.state.tabs@, self.state.tabs@, self.open_tab_paths);
                }
                let r = self.fail(LifecycleError::File(e));
                proof {
                    assert(external_reload_handled(start, *self, tab_id, inspect_fn, read_fn, r));
                }
                return r;
            },
        };
        let ghost before = self.state.tabs@;
        self.replace_from_disk(tab_id, source.clone(), version);
        proof {
            lemma_position_of_tab(before, tab_id);
            assert(self.state.tabs@ =~= before.update(index as int, self.state.tabs@[index as int]));
            Self::lemma_update_tab(before, self.state.tabs@, index as int);
        }
        self.clear_tab_modal(tab_id);
        let r = Ok(Some(source));
        proof {
            assert(reloaded_from_disk(start, *self, index as int, got->Ok_0@, version));
            assert(external_reload_handled(start, *self, tab_id, inspect_fn, read_fn, r));
        }
        r
    }

    /// The tab showing the file at `path` (as the watcher named it; when
    /// that is not indexed, `canonical_of` may name its canonical form).
    fn tab_for_event_path<K: FnOnce(&str) -> Option<String>>(&self, path: &str, canonical_of: K) -> (r: Option<TabId>)
        requires
            self.wf(),
            forall|p: &str| canonical_of.requires((p,)),
        ensures
            r matches Some(t) ==> position_of_tab(self.tabs(), t) >= 0,
            self.tab_for_path(path@) is Some ==> r == self.tab_for_path(path@),
            self.tab_for_path(path@) is None ==> exists|c: Option<String>|
                canonical_of.ensures((path,), c) && r == event_tab(*self, path@, c),
    {
        match self.open_tab_paths.get(path) {
            Some(t) => {
                proof {
                    assert(self.open_tab_paths.lookup(path@) is Some);
                }
                Some(t)
            },
            None => {
                let canonical = canonical_of(path);
                let ghost found_as = canonical;
                match canonical {
                    Some(c) => {
                        let found = self.open_tab_paths.get(c.as_str());
                        proof {
                            if found is Some {
                                assert(self.open_tab_paths.lookup(c@) is Some);
                            }
                            assert(canonical_of.ensures((path,), found_as) && found == event_tab(*self, path@, found_as));
                        }
                        found
                    },
                    None => {
                        proof {
                            assert(canonical_of.ensures((path,), found_as) && None::<TabId> == event_tab(*self, path@, found_as));
                        }
                        None
                    },
                }
            },
        }
    }
}

impl Workbench {
    /// Shows `message` as an error.
    pub fn show_error(&mut self, message: String)
        requires
            old(self).wf(),
        ensures
            final(self).wf(),
            old(self).files_unique() ==> final(self).files_unique(),
            final(self).spec_notification() matches Some(n) && n.message@ == message@
                && n.kind == crate::state::NotificationKind::Error,
            final(self).tabs() == old(self).tabs(),
            final(self).active() == old(self).active(),
    {
        self.report(message);
    }

    /// Shows `notification`.
    pub fn show(&mut self, notification: Notification)
        requires
            old(self).wf(),
        ensures
            final(self).wf(),
            old(self).files_unique() ==> final(self).files_unique(),
            final(self).spec_notification() == Some(notification),
            final(self).tabs() == old(self).tabs(),
            final(self).active() == old(self).active(),
    {
        self.notification = Some(notification);
    }

    /// The file at `path` changed on disk (as the watcher reports it). For
    /// the tab showing it: `inspect` gives the file's version; a version
    /// already known changes nothing; a file that is gone asks the
    /// deleted-file question; otherwise `read` gives the new text, which a
    /// clean tab takes (its editor then shows the returned text) and a
    /// dirty tab conflicts with. A failed inspection or read is reported
    /// and puts the tab in conflict.
    #[verifier::spinoff_prover]
    #[verifier::rlimit(40)]
    pub fn handle_changed_path<K, I, Rd>(&mut self, path: &str, canonical_of: K, inspect: I, read: Rd) -> (r: Option<String>) where
        K: FnOnce(&str) -> Option<String>,
        I: FnOnce(&String) -> Result<DiskVersion, FileError>,
        Rd: FnOnce(&str) -> Result<String, FileError>,

        requires
            old(self).wf(),
            forall|p: &str| canonical_of.requires((p,)),
            forall|p: String| inspect.requires((&p,)),
            forall|p: &str| read.requires((p,)),
        ensures
            final(self).wf(),
            old(self).files_unique() ==> final(self).files_unique(),
            same_identities(old(self).tabs(), final(self).tabs()),
            final(self).active() == old(self).active(),
            exists|c: Option<String>| (old(self).tab_for_path(path@) is Some || canonical_of.ensures((path,), c))
                && #[trigger] change_handled(*old(self), *final(self), path@, c, inspect, read, r),
            r matches Some(source) ==> exists|i: int| 0 <= i < final(self).tabs().len()
                && final(self).tabs()[i].saved_source@ == source@ && !final(self).tabs()[i].dirty
                && final(self).tabs()[i].disk_state == DiskState::Synced
                && !old(self).tabs()[i].dirty,
            keeps_unsaved_edits(old(self).tabs(), final(self).tabs()),
            r is None ==> keeps_saved_texts(old(self).tabs(), final(self).tabs()),
            at_most_one_tab_changes(old(self).tabs(), final(self).tabs()),
    {
        let ghost start = *self;
        let ghost canonical_fn = canonical_of;
        let ghost inspect_fn = inspect;
        let ghost read_fn = read;
        let found = self.tab_for_event_path(path, canonical_of);
        let ghost c: Option<String> = if start.tab_for_path(path@) is Some {
            None
        } else {
            choose|c: Option<String>| canonical_fn.ensures((path,), c) && found == event_tab(start, path@, c)
        };
        proof {
            assert(start.tab_for_path(path@) is Some || canonical_fn.ensures((path,), c));
            assert(found == event_tab(start, path@, c));
        }
        let tab_id = match found {
            Some(t) => t,
            None => {
                proof {
                    lemma_same_identities(self.state.tabs@, self.state.tabs@, self.open_tab_paths);
                    lemma_no_tab_changes(self.state.tabs@);
                    assert(change_handled(start, *self, path@, c, inspect_fn, read_fn, None));
                }
                return None;
            },
        };
        let index = match self.tab_index(tab_id) {
            Some(i) => i,
            None => {
                proof {
                    lemma_position_of_tab(self.state.tabs@, tab_id);
                    assert(false);
                }
                return None;
            },
        };
        let ghost before = self.state.tabs@;
        let ghost k = index as int;
        proof { lemma_position_of_tab(before, tab_id); }
        let tab_path = self.state.tabs[index].path.clone();
        let inspected = inspect(&tab_path);
        let ghost inspected_as = inspected;
        proof {
            assert(tab_path@ == before[k].path@ && inspect_fn.ensures((&tab_path,), inspected_as));
        }
        let version = match inspected {
            Ok(v) => v,
            Err(e) => {
                let m = e.localized_message(self.language);
                self.report(m);
                self.enter_conflict(tab_id);
                proof {
                    assert(self.state.tabs@ =~= before.update(k, self.state.tabs@[k]));
                    Self::lemma_update_tab(before, self.state.tabs@, k);
                    lemma_one_tab_changes(before, self.state.tabs@, k);
                    assert(conflict_entered(start, *self, k, tab_id));
                    assert(change_handled(start, *self, path@, c, inspect_fn, read_fn, None));
                }
                return None;
            },
        };
        if self.state.tabs[index].disk_version == version {
            proof {
                lemma_same_identities(self.state.tabs@, self.state.tabs@, self.open_tab_paths);
                lemma_no_tab_changes(self.state.tabs@);
                assert(change_handled(start, *self, path@, c, inspect_fn, read_fn, None));
            }
            return None;
        }
        if !version.exists {
            self.enter_deleted(tab_id);
            proof {
                assert(self.state.tabs@ =~= before.update(k, self.state.tabs@[k]));
                Self::lemma_update_tab(before, self.state.tabs@, k);
                lemma_one_tab_changes(before, self.state.tabs@, k);
                assert(deletion_entered(start, *self, k, tab_id));
                assert(change_handled(start, *self, path@, c, inspect_fn, read_fn, None));
            }
            return None;
        }
        let mut change = ExternalChangeState {
            saved_source: self.state.tabs[index].saved_source.clone(),
            disk_version: self.state.tabs[index].disk_version,
            dirty: self.state.tabs[index].dirty,
            disk_state: self.state.tabs[index].disk_state,
            autosave_blocked: self.state.tabs[index].autosave_blocked,
        };
        let text_path = tab_path.as_str();
        let resolution = load_external_change(&mut change, text_path, version, read);
        self.state.tabs[index].saved_source = change.saved_source;
        self.state.tabs[index].disk_version = change.disk_version;
        self.state.tabs[index].dirty = change.dirty;
        self.state.tabs[index].disk_state = change.disk_state;
        self.state.tabs[index].autosave_blocked = change.autosave_blocked;
        proof {
            assert(self.state.tabs@ =~= before.update(k, self.state.tabs@[k]));
            Self::lemma_update_tab(before, self.state.tabs@, k);
            lemma_same_identities(before, self.state.tabs@, self.open_tab_paths);
        }
        let ghost mid = self.state.tabs@;
        match resolution {
            Ok(ExternalResolution::Reloaded(source)) => {
                self.replace_from_disk(tab_id, source.clone(), version);
                proof {
                    assert(self.state.tabs@ =~= mid.update(k, self.state.tabs@[k]));
                    Self::lemma_update_tab(mid, self.state.tabs@, k);
                    lemma_same_identities(mid, self.state.tabs@, self.open_tab_paths);
                    assert(self.state.tabs@[k].saved_source@ == source@);
                    assert(self.state.tabs@ =~= before.update(k, self.state.tabs@[k]));
                    lemma_one_tab_changes(before, self.state.tabs@, k);
                    let got = choose|got: String| read_fn.ensures((text_path,), Ok::<String, FileError>(got))
                        && (!before[k].dirty ==> got@ == source@);
                    assert(reloaded_from_disk(start, *self, k, got@, version));
                    assert(read_fn.ensures((text_path,), Ok::<String, FileError>(got)));
                    assert(change_handled(start, *self, path@, c, inspect_fn, read_fn, Some(source)));
                }
                Some(source)
            },
            Ok(ExternalResolution::Conflict) => {
                self.enter_conflict(tab_id);
                proof {
                    assert(self.state.tabs@ =~= mid.update(k, self.state.tabs@[k]));
                    Self::lemma_update_tab(mid, self.state.tabs@, k);
                    lemma_same_identities(mid, self.state.tabs@, self.open_tab_paths);
                    assert(self.state.tabs@ =~= before.update(k, self.state.tabs@[k]));
                    lemma_one_tab_changes(before, self.state.tabs@, k);
                    let got = choose|got: String| read_fn.ensures((text_path,), Ok::<String, FileError>(got))
                        && before[k].dirty;
                    assert(conflict_entered(start, *self, k, tab_id));
                    assert(read_fn.ensures((text_path,), Ok::<String, FileError>(got)));
                    assert(change_handled(start, *self, path@, c, inspect_fn, read_fn, None));
                }
                None
            },
            Err(e) => {
                let m = e.localized_message(self.language);
                self.report(m);
                self.enter_conflict(tab_id);
                proof {
                    assert(self.state.tabs@ =~= mid.update(k, self.state.tabs@[k]));
                    Self::lemma_update_tab(mid, self.state.tabs@, k);
                    lemma_same_identities(mid, self.state.tabs@, self.open_tab_paths);
                    assert(self.state.tabs@ =~= before.update(k, self.state.tabs@[k]));
                    lemma_one_tab_changes(before, self.state.tabs@, k);
                    assert(conflict_entered(start, *self, k, tab_id));
                    assert(read_fn.ensures((text_path,), Err::<String, FileError>(e)));
                    assert(change_handled(start, *self, path@, c, inspect_fn, read_fn, None));
                }
                None
            },
        }
    }

    /// Sorts a batch of watcher events: errors are shown to the user; the
    /// paths of the other events come back once each, in path order, with
    /// whether the workspace tree needs a rescan.
    pub fn apply_watch_events(&mut self, events: Vec<FileSystemEvent>) -> (r: (Vec<String>, bool))
        requires
            old(self).wf(),
        ensures
            final(self).wf(),
            old(self).files_unique() ==> final(self).files_unique(),
            final(self).tabs() == old(self).tabs(),
            final(self).active() == old(self).active(),
            final(self).app_state() == old(self).app_state(),
            r.1 == exists|i: int| 0 <= i < events@.len() && crate::app::lifecycle::spec_requires_rescan(
                crate::app::tabs::opt_view_string(old(self).app_state().workspace_root),
                crate::state::forest_view(old(self).app_state().file_tree@), #[trigger] events@[i]),
            strictly_path_sorted(crate::pathname::views(r.0@)),
            forall|q: Seq<char>| crate::pathname::views(r.0@).contains(q) <==> exists|j: int|
                0 <= j < events@.len() && !(events@[j] is Error) && #[trigger] event_path(events@[j]) == q,
            match last_watch_error(events@) {
                Some(m) => final(self).spec_notification() matches Some(n) && n.message@ == crate::i18n::spec_file_watcher_error(
                    old(self).spec_language(), m.0, m.1),
                None => final(self).spec_notification() == old(self).spec_notification(),
            },
    {
        let mut changed: Vec<String> = Vec::new();
        let mut rescan = false;
        let mut i: usize = 0;
        let root_owned: Option<String> = match &self.state.workspace_root {
            Some(r) => Some(r.clone()),
            None => None,
        };
        let root: Option<&str> = match &root_owned {
            Some(r) => Some(r.as_str()),
            None => None,
        };
        assert(events@.subrange(0, 0) =~= Seq::<FileSystemEvent>::empty());
        assert(crate::pathname::views(changed@) =~= Seq::<Seq<char>>::empty());
        while i < events.len()
            invariant
                0 <= i <= events@.len(),
                self.wf(),
                index_complete(old(self).state.tabs@, old(self).open_tab_paths) ==> self.files_unique(),
                self.state == old(self).state,
                self.open_tab_paths == old(self).open_tab_paths,
                crate::app::tabs::opt_view(root) == crate::app::tabs::opt_view_string(self.state.workspace_root),
                rescan == exists|j: int| 0 <= j < i && crate::app::lifecycle::spec_requires_rescan(
                    crate::app::tabs::opt_view(root), crate::state::forest_view(self.state.file_tree@), #[trigger] events@[j]),
                strictly_path_sorted(crate::pathname::views(changed@)),
                forall|q: Seq<char>| crate::pathname::views(changed@).contains(q) <==> exists|j: int|
                    0 <= j < i && !(events@[j] is Error) && #[trigger] event_path(events@[j]) == q,
                self.language == old(self).language,
                match last_watch_error(events@.subrange(0, i as int)) {
                    Some(m) => self.notification matches Some(n) && n.message@ == crate::i18n::spec_file_watcher_error(
                        self.language, m.0, m.1),
                    None => self.notification == old(self).notification,
                },
            decreases events@.len() - i,
        {
            let ghost prefix = events@.subrange(0, i + 1);
            assert(prefix.drop_last() =~= events@.subrange(0, i as int));
            assert(prefix.last() == events@[i as int]);
            let event = &events[i];
            let for_event = workspace_event_requires_rescan(root, self.state.file_tree.as_slice(), event);
            match event {
                FileSystemEvent::Error { path, message } => {
                    let p: Option<&str> = match path {
                        Some(p) => Some(p.as_str()),
                        None => None,
                    };
                    let m = self.language.file_watcher_error(p, message.as_str());
                    self.report(m);
                },
                FileSystemEvent::Changed(p) | FileSystemEvent::Created(p) | FileSystemEvent::Removed(p) => {
                    if for_event {
                        rescan = true;
                    }
                    let ghost before = crate::pathname::views(changed@);
                    insert_path_sorted(&mut changed, p);
                    proof {
                        assert(event_path(events@[i as int]) == p@);
                        assert forall|q: Seq<char>| crate::pathname::views(changed@).contains(q) <==> exists|j: int|
                            0 <= j < i + 1 && !(events@[j] is Error) && #[trigger] event_path(events@[j]) == q by {
                            if q == p@ {
                                assert(!(events@[i as int] is Error) && event_path(events@[i as int]) == q);
                            }
                            if before.contains(q) {
                                let j = choose|j: int| 0 <= j < i && !(events@[j] is Error) && #[trigger] event_path(events@[j]) == q;
                                assert(0 <= j < i + 1 && !(events@[j] is Error) && event_path(events@[j]) == q);
                            }
                        }
                    }
                },
            }
            i = i + 1;
        }
        assert(events@.subrange(0, events@.len() as int) =~= events@);
        (changed, rescan)
    }

    /// Opening the workspace `root` (already checked readable): it becomes
    /// the workspace and the sidebar shows. The previous tree stays shown
    /// until the first scanned paths arrive. Returns the expansion to keep
    /// for the new tree: the current one when the same workspace is
    /// reopened, none otherwise.
    pub fn begin_workspace(&mut self, root: String) -> (r: Vec<(String, bool)>)
        requires
            old(self).wf(),
        ensures
            final(self).wf(),
            old(self).files_unique() ==> final(self).files_unique(),
            final(self).app_state().workspace_root matches Some(w) && w@ == root@,
            final(self).app_state().sidebar_visible,
            final(self).app_state().file_tree == old(self).app_state().file_tree,
            final(self).tabs() == old(self).tabs(),
            final(self).active() == old(self).active(),
            (old(self).app_state().workspace_root matches Some(w) && w@ == root@) ==>
                crate::ui::file_tree::expansion_view(r@) == crate::ui::file_tree::capture_all(
                    crate::state::forest_view(old(self).app_state().file_tree@)),
            !(old(self).app_state().workspace_root matches Some(w) && w@ == root@) ==> r@.len() == 0,
    {
        let same = match &self.state.workspace_root {
            Some(w) => str_eq(w.as_str(), root.as_str()),
            None => false,
        };
        let expansion = if same {
            crate::ui::file_tree::capture_expansion(&self.state.file_tree)
        } else {
            Vec::new()
        };
        let mut previous: Vec<crate::state::FileTreeNode> = Vec::new();
        std::mem::swap(&mut previous, &mut self.state.file_tree);
        crate::app::tabs::apply_workspace_state(&mut self.state.workspace_root, &mut self.state.file_tree, root, previous);
        self.state.sidebar_visible = true;
        expansion
    }

    /// Scanned `paths` below the workspace `root` arrive: the previous tree
    /// is dropped first when it is still shown, then the Markdown files
    /// among them join the tree with their directories, sorted, keeping the
    /// expansion recorded in `expansion`.
    pub fn receive_scanned_paths(&mut self, root: &str, paths: Vec<String>, expansion: &Vec<(String, bool)>, showing_previous_tree: bool)
        requires
            old(self).wf(),
        ensures
            final(self).wf(),
            old(self).files_unique() ==> final(self).files_unique(),
            final(self).tabs() == old(self).tabs(),
            final(self).active() == old(self).active(),
            crate::ui::file_tree::sorted_at(crate::state::forest_view(final(self).app_state().file_tree@), 0),
            crate::state::forest_view(final(self).app_state().file_tree@)
                == crate::ui::file_tree::sort_forest(crate::ui::file_tree::insert_paths(
                    if showing_previous_tree { Seq::empty() } else { crate::state::forest_view(old(self).app_state().file_tree@) },
                    root@, crate::pathname::views(paths@), crate::ui::file_tree::expansion_view(expansion@), paths@.len() as int)),
            final(self).spec_notification() == old(self).spec_notification(),
            final(self).spec_language() == old(self).spec_language(),
    {
        if showing_previous_tree {
            self.state.file_tree = Vec::new();
            assert(crate::state::forest_view(self.state.file_tree@) =~= Seq::empty());
        }
        crate::ui::file_tree::insert_markdown_paths(&mut self.state.file_tree, root, paths, expansion);
    }

    /// A scan finished: when it brought no path at all, the previous tree
    /// (still shown) is dropped.
    pub fn finish_scan(&mut self, showing_previous_tree: bool)
        requires
            old(self).wf(),
        ensures
            final(self).wf(),
            old(self).files_unique() ==> final(self).files_unique(),
            final(self).tabs() == old(self).tabs(),
            final(self).active() == old(self).active(),
            showing_previous_tree ==> final(self).app_state().file_tree@.len() == 0,
            !showing_previous_tree ==> final(self).app_state() == old(self).app_state(),
            final(self).spec_notification() == old(self).spec_notification(),
            final(self).spec_language() == old(self).spec_language(),
    {
        if showing_previous_tree {
            self.state.file_tree = Vec::new();
        }
    }

    /// One poll of the workspace scan `scan`: the oldest waiting paths (as
    /// many as one poll takes) join the tree as `receive_scanned_paths`
    /// says. Once the worker's result is in and no path waits, the scan is
    /// over: a previous tree that still shows is dropped, and a failure is
    /// reported. Returns whether the tree changed and, when the scan is
    /// over, its result.
    pub fn poll_scan(&mut self, scan: &mut WorkspaceScan) -> (r: ScanPoll)
        requires
            old(self).wf(),
        ensures
            final(self).wf(),
            old(self).files_unique() ==> final(self).files_unique(),
            final(self).tabs() == old(self).tabs(),
            final(self).active() == old(self).active(),
            same_scan(*final(scan), *old(scan)),
            ({
                let n = batch_len(old(scan).pending_paths@.len());
                let batch = old(scan).pending_paths@.take(n as int);
                let done = old(scan).finished is Some
                    && old(scan).pending_paths@.len() <= MAX_SCAN_PATHS_PER_POLL;
                let base = if old(scan).showing_previous_tree {
                    Seq::empty()
                } else {
                    crate::state::forest_view(old(self).app_state().file_tree@)
                };
                &&& final(scan).pending_paths@ == old(scan).pending_paths@.skip(n as int)
                &&& done ==> r.outcome == old(scan).finished && final(scan).finished is None
                &&& !done ==> r.outcome is None && final(scan).finished == old(scan).finished
                &&& r.changed == (n > 0 || done)
                &&& n > 0 ==> {
                    &&& !final(scan).showing_previous_tree
                    &&& crate::ui::file_tree::sorted_at(crate::state::forest_view(final(self).app_state().file_tree@), 0)
                    &&& crate::state::forest_view(final(self).app_state().file_tree@)
                        == crate::ui::file_tree::sort_forest(crate::ui::file_tree::insert_paths(
                            base, old(scan).root@, crate::pathname::views(batch),
                            crate::ui::file_tree::expansion_view(old(scan).expansion@), n as int))
                }
                &&& n == 0 && done && old(scan).showing_previous_tree ==>
                    !final(scan).showing_previous_tree && final(self).app_state().file_tree@.len() == 0
                &&& n == 0 && !(done && old(scan).showing_previous_tree) ==>
                    final(self).app_state() == old(self).app_state()
                    && final(scan).showing_previous_tree == old(scan).showing_previous_tree
            }),
            r.outcome matches Some(Err(e)) ==> (final(self).spec_notification() matches Some(n)
                && n.message@ == spec_file_error_message(e, old(self).spec_language())),
            !(r.outcome matches Some(Err(_))) ==> final(self).spec_notification() == old(self).spec_notification(),
    {
        let batch = scan.take_batch();
        let mut changed = false;
        if batch.len() > 0 {
            self.receive_scanned_paths(scan.root.as_str(), batch, &scan.expansion, scan.showing_previous_tree);
            scan.showing_previous_tree = false;
            changed = true;
        }
        let outcome = scan.take_completion();
        match &outcome {
            None => {},
            Some(result) => {
                if scan.showing_previous_tree {
                    self.finish_scan(true);
                    scan.showing_previous_tree = false;
                }
                match result {
                    Ok(()) => {},
                    Err(e) => {
                        let m = e.localized_message(self.language);
                        self.report(m);
                    },
                }
                changed = true;
            },
        }
        ScanPoll { changed, outcome }
    }

    /// Whether the open file `path` needs a watch of its own: it lies
    /// outside the workspace, or there is none.
    pub fn needs_parent_watch(&self, path: &str) -> (r: bool)
        ensures
            r == match self.app_state().workspace_root {
                Some(root) => !crate::pathname::spec_starts_with(path@, root@),
                None => true,
            },
    {
        match &self.state.workspace_root {
            Some(root) => !crate::pathname::starts_with(path, root.as_str()),
            None => true,
        }
    }

    /// The files of the tabs (in tab order) that need a watch of their own
    /// when the workspace is `workspace_root`: every tab with a file
    /// outside it.
    pub fn files_outside(&self, workspace_root: Option<&str>) -> (r: Vec<String>)
        ensures
            crate::pathname::views(r@) == outside_files(self.tabs(), crate::app::tabs::opt_view(workspace_root)),
    {
        let ghost root = crate::app::tabs::opt_view(workspace_root);
        let mut files: Vec<String> = Vec::new();
        let mut i: usize = 0;
        while i < self.state.tabs.len()
            invariant
                0 <= i <= self.state.tabs@.len(),
                root == crate::app::tabs::opt_view(workspace_root),
                crate::pathname::views(files@) == outside_files(self.state.tabs@.take(i as int), root),
            decreases self.state.tabs@.len() - i,
        {
            let ghost before = files@;
            proof {
                assert(self.state.tabs@.take(i as int + 1).drop_last() =~= self.state.tabs@.take(i as int));
            }
            let path = &self.state.tabs[i].path;
            let outside = match workspace_root {
                Some(r) => !crate::pathname::starts_with(path.as_str(), r),
                None => true,
            };
            if !path.as_str().is_empty() && outside {
                files.push(path.clone());
                proof {
                    assert(crate::pathname::views(files@) =~= crate::pathname::views(before).push(path@));
                }
            }
            i = i + 1;
        }
        proof {
            assert(self.state.tabs@.take(self.state.tabs@.len() as int) =~= self.state.tabs@);
        }
        files
    }

    /// Whether an access scope granted for `scope_path` is still needed: it
    /// overlaps the workspace or the file of an open tab.
    pub fn needs_access_scope(&self, scope_path: &str) -> (r: bool)
        ensures
            r == ((self.app_state().workspace_root matches Some(root)
                    && crate::app::tabs::spec_paths_overlap(root@, scope_path@))
                || exists|i: int| 0 <= i < self.tabs().len() && self.tabs()[i].path@.len() > 0
                    && crate::app::tabs::spec_paths_overlap(#[trigger] self.tabs()[i].path@, scope_path@)),
    {
        if let Some(root) = &self.state.workspace_root {
            if crate::app::tabs::paths_overlap(root.as_str(), scope_path) {
                return true;
            }
        }
        let mut i: usize = 0;
        while i < self.state.tabs.len()
            invariant
                0 <= i <= self.state.tabs@.len(),
                forall|j: int| 0 <= j < i ==> !(self.state.tabs@[j].path@.len() > 0
                    && crate::app::tabs::spec_paths_overlap(#[trigger] self.state.tabs@[j].path@, scope_path@)),
            decreases self.state.tabs@.len() - i,
        {
            let path = &self.state.tabs[i].path;
            if !path.as_str().is_empty() && crate::app::tabs::paths_overlap(path.as_str(), scope_path) {
                return true;
            }
            i = i + 1;
        }
        false
    }

    /// The expansion of the directories of the current tree.
    pub fn capture_tree_expansion(&self) -> (r: Vec<(String, bool)>)
        ensures
            crate::ui::file_tree::expansion_view(r@) == crate::ui::file_tree::capture_all(
                crate::state::forest_view(self.app_state().file_tree@)),
    {
        crate::ui::file_tree::capture_expansion(&self.state.file_tree)
    }
}

/// The files of `tabs` (in order) that lie outside the workspace `root`
/// (all files when there is none); untitled tabs have none.
pub open spec fn outside_files(tabs: Seq<EditorTab>, root: Option<Seq<char>>) -> Seq<Seq<char>>
    decreases tabs.len(),
{
    if tabs.len() == 0 {
        Seq::empty()
    } else {
        let rest = outside_files(tabs.drop_last(), root);
        let p = tabs.last().path@;
        let outside = match root {
            Some(r) => !crate::pathname::spec_starts_with(p, r),
            None => true,
        };
        if p.len() > 0 && outside { rest.push(p) } else { rest }
    }
}

/// The tab an event at `path` concerns: the tab of that file, else the tab
/// of `canonical`, the canonical form the application found for it.
pub open spec fn event_tab(w: Workbench, path: Seq<char>, canonical: Option<String>) -> Option<TabId> {
    if w.tab_for_path(path) is Some {
        w.tab_for_path(path)
    } else {
        match canonical {
            Some(c) => w.tab_for_path(c@),
            None => None,
        }
    }
}

/// Tab `t`, at `k`, conflicts with its file in `after`: its identity, text
/// and edits are as in `before`, autosave stops, the user is asked; the
/// other tabs are as they were.
pub open spec fn conflict_entered(before: Workbench, after: Workbench, k: int, t: TabId) -> bool {
    let o = before.tabs()[k];
    let n = after.tabs()[k];
    &&& after.tabs() == before.tabs().update(k, n)
    &&& same_text_identity(n, o)
    &&& n.dirty == o.dirty
    &&& n.disk_state == DiskState::Conflict
    &&& n.autosave_blocked
    &&& (after.shown_modal() == Some(Modal::ExternalConflict(t))
        || after.waiting_modals().contains(Modal::ExternalConflict(t)))
}

/// The file of tab `t`, at `k`, is gone in `after`: the tab keeps its
/// identity and text and counts as unsaved, autosave stops, the user is
/// asked; the other tabs are as they were.
pub open spec fn deletion_entered(before: Workbench, after: Workbench, k: int, t: TabId) -> bool {
    let o = before.tabs()[k];
    let n = after.tabs()[k];
    &&& after.tabs() == before.tabs().update(k, n)
    &&& same_text_identity(n, o)
    &&& n.dirty
    &&& n.disk_state == DiskState::Deleted
    &&& n.autosave_blocked
    &&& (after.shown_modal() == Some(Modal::DeletedFile(t))
        || after.waiting_modals().contains(Modal::DeletedFile(t)))
}

/// Tab `k` shows `source` as read from disk at `version` in `after`: clean,
/// in sync and free to autosave; the other tabs are as they were.
pub open spec fn reloaded_from_disk(before: Workbench, after: Workbench, k: int, source: Seq<char>, version: DiskVersion) -> bool {
    let o = before.tabs()[k];
    let n = after.tabs()[k];
    &&& after.tabs() == before.tabs().update(k, n)
    &&& n.id == o.id && n.path@ == o.path@ && n.title@ == o.title@
    &&& n.saved_source@ == source
    &&& n.disk_version == version
    &&& !n.dirty
    &&& n.disk_state == DiskState::Synced
    &&& !n.autosave_blocked
}

/// What reloading tab `t` from disk did, given what the application's
/// functions gave back (`inspect` for the file's version, `read` for its
/// text): a missing tab is refused; a failed inspection or read is
/// refused with its error and changes no tab; a file that is gone asks
/// about the deletion; otherwise the tab shows the text read, clean and in
/// sync, the text comes back and no question about the tab remains.
pub open spec fn external_reload_handled<I, Rd>(
    before: Workbench,
    after: Workbench,
    t: TabId,
    inspect: I,
    read: Rd,
    r: Result<Option<String>, LifecycleError>,
) -> bool where
    I: FnOnce(&String) -> Result<DiskVersion, FileError>,
    Rd: FnOnce(&String) -> Result<String, FileError>,
{
    let k = position_of_tab(before.tabs(), t);
    if k < 0 {
        (r matches Err(LifecycleError::MissingTab(x)) && x == t) && after.tabs() == before.tabs()
    } else {
        let o = before.tabs()[k];
        exists|p: String, inspected: Result<DiskVersion, FileError>|
            p@ == o.path@ && #[trigger] inspect.ensures((&p,), inspected) && match inspected {
                Err(e) => r == Err::<Option<String>, LifecycleError>(LifecycleError::File(e))
                    && after.tabs() == before.tabs(),
                Ok(v) => if !v.exists {
                    r matches Ok(None) && deletion_entered(before, after, k, t)
                } else {
                    exists|q: String, got: Result<String, FileError>|
                        q@ == o.path@ && #[trigger] read.ensures((&q,), got) && match got {
                            Err(e) => r == Err::<Option<String>, LifecycleError>(LifecycleError::File(e))
                                && after.tabs() == before.tabs(),
                            Ok(s) => (r matches Ok(Some(x)) && x@ == s@)
                                && reloaded_from_disk(before, after, k, s@, v)
                                && (after.shown_modal() matches Some(m) ==> !crate::app::modals::about_tab(m, t))
                                && forall|m: Modal| after.waiting_modals().contains(m) ==> !crate::app::modals::about_tab(m, t),
                        }
                },
            }
    }
}

/// `error` is reported in `after`, in `language`.
pub open spec fn file_error_reported(after: Workbench, error: FileError, language: Language) -> bool {
    after.spec_notification() matches Some(n) && n.message@ == crate::file::spec_file_error_message(error, language)
}

/// What reacting to a change of the file at `path` did, given what the
/// application's functions gave back (`canonical` for the canonical form,
/// `inspect` for the file's version, `read` for its text): nothing when no
/// tab shows the file; otherwise, for that tab, a failed inspection is
/// reported and conflicts, a known version changes nothing, a missing file
/// asks about the deletion, a failed read is reported and conflicts, new
/// text conflicts with a dirty tab and reloads a clean one (and comes back).
pub open spec fn change_handled<I, Rd>(
    before: Workbench,
    after: Workbench,
    path: Seq<char>,
    canonical: Option<String>,
    inspect: I,
    read: Rd,
    r: Option<String>,
) -> bool where
    I: FnOnce(&String) -> Result<DiskVersion, FileError>,
    Rd: FnOnce(&str) -> Result<String, FileError>,
{
    match event_tab(before, path, canonical) {
        None => r is None && after == before,
        Some(t) => {
            let k = position_of_tab(before.tabs(), t);
            let o = before.tabs()[k];
            let lang = before.spec_language();
            exists|p: String, inspected: Result<DiskVersion, FileError>|
                p@ == o.path@ && #[trigger] inspect.ensures((&p,), inspected) && match inspected {
                    Err(e) => r is None && conflict_entered(before, after, k, t) && file_error_reported(after, e, lang),
                    Ok(v) => if v == o.disk_version {
                        r is None && after.tabs() == before.tabs()
                    } else if !v.exists {
                        r is None && deletion_entered(before, after, k, t)
                    } else {
                        exists|q: &str, got: Result<String, FileError>|
                            q@ == o.path@ && #[trigger] read.ensures((q,), got) && match got {
                                Err(e) => r is None && conflict_entered(before, after, k, t)
                                    && file_error_reported(after, e, lang),
                                Ok(s) => if o.dirty {
                                    r is None && conflict_entered(before, after, k, t)
                                } else {
                                    (r matches Some(x) && x@ == s@) && reloaded_from_disk(before, after, k, s@, v)
                                },
                            }
                    },
                }
        },
    }
}

/// The path of a change event.
pub open spec fn event_path(e: FileSystemEvent) -> Seq<char> {
    match e {
        FileSystemEvent::Changed(p) => p@,
        FileSystemEvent::Created(p) => p@,
        FileSystemEvent::Removed(p) => p@,
        FileSystemEvent::Error { .. } => Seq::empty(),
    }
}

/// The path and message of the last error among `events`, if any.
pub open spec fn last_watch_error(events: Seq<FileSystemEvent>) -> Option<(Option<Seq<char>>, Seq<char>)>
    decreases events.len(),
{
    if events.len() == 0 {
        None
    } else {
        match events.last() {
            FileSystemEvent::Error { path, message } => Some((match path {
                Some(p) => Some(p@),
                None => None,
            }, message@)),
            _ => last_watch_error(events.drop_last()),
        }
    }
}

/// Paths in strictly increasing path order.
pub open spec fn strictly_path_sorted(s: Seq<Seq<char>>) -> bool {
    forall|i: int, j: int| 0 <= i < j < s.len() ==> crate::state::path_order(s[i], s[j]) < 0
}

/// Adds `p` to the paths `v`, kept in strictly increasing path order.
fn insert_path_sorted(v: &mut Vec<String>, p: &String)
    requires
        strictly_path_sorted(crate::pathname::views(old(v)@)),
    ensures
        strictly_path_sorted(crate::pathname::views(final(v)@)),
        forall|q: Seq<char>| crate::pathname::views(final(v)@).contains(q)
            <==> (crate::pathname::views(old(v)@).contains(q) || q == p@),
{
    let ghost o = crate::pathname::views(v@);
    let mut i: usize = 0;
    while i < v.len()
        invariant
            0 <= i <= v@.len(),
            v@ == old(v)@,
            o == crate::pathname::views(v@),
            forall|j: int| 0 <= j < i ==> crate::state::path_order(#[trigger] o[j], p@) < 0,
        ensures
            0 <= i <= v@.len(),
            v@ == old(v)@,
            forall|j: int| 0 <= j < i ==> crate::state::path_order(#[trigger] o[j], p@) < 0,
            i < v@.len() ==> crate::state::path_order(o[i as int], p@) >= 0,
        decreases v@.len() - i,
    {
        if crate::state::compare_paths(v[i].as_str(), p.as_str()) >= 0 {
            break;
        }
        i = i + 1;
    }
    if i < v.len() && crate::state::compare_paths(v[i].as_str(), p.as_str()) == 0 {
        proof {
            crate::state::lemma_path_order_zero_equal(o[i as int], p@);
            assert(o[i as int] == p@);
        }
        return;
    }
    v.insert(i, p.clone());
    proof {
        let n = crate::pathname::views(v@);
        assert(n =~= o.insert(i as int, p@));
        if i < o.len() {
            crate::state::lemma_lex_order_antisymmetric(
                crate::state::path_key(o[i as int]), crate::state::path_key(p@));
        }
        assert forall|a: int, b: int| 0 <= a < b < n.len() implies crate::state::path_order(n[a], n[b]) < 0 by {
            if b < i {
            } else if b == i {
            } else if a < i {
                assert(n[a] == o[a] && n[b] == o[b - 1]);
            } else if a == i {
                crate::state::lemma_lex_order_antisymmetric(
                    crate::state::path_key(p@), crate::state::path_key(o[i as int]));
                if b - 1 > i {
                    assert(crate::state::path_order(o[i as int], o[b - 1]) < 0);
                    crate::state::lemma_lex_order_transitive(
                        crate::state::path_key(p@), crate::state::path_key(o[i as int]), crate::state::path_key(o[b - 1]));
                }
            } else {
            }
        }
        assert forall|q: Seq<char>| n.contains(q) <==> (o.contains(q) || q == p@) by {
            if n.contains(q) {
                let k = choose|k: int| 0 <= k < n.len() && n[k] == q;
                if k < i {
                    assert(o[k] == q);
                } else if k > i {
                    assert(o[k - 1] == q);
                }
            }
            if o.contains(q) {
                let k = choose|k: int| 0 <= k < o.len() && o[k] == q;
                if k < i {
                    assert(n[k] == q);
                } else {
                    assert(n[k + 1] == q);
                }
            }
            if q == p@ {
                assert(n[i as int] == q);
            }
        }
    }
}

} // verus!
