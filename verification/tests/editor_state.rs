use std::cell::Cell;
use std::collections::VecDeque;

use mieli::app::lifecycle::{
    ExternalChangeState, ExternalResolution, LifecycleError, SaveTabState, apply_external_change,
    autosave_transition, file_tree_contains_path, load_external_change, save_as_transition,
    save_tab_transition, workspace_event_requires_rescan, workspace_scan_disconnected,
};
use mieli::app::modals::{
    advance_modal, clear_shutdown_modal, clear_tab_modal_state, dismiss_modal_state, queue_modal,
};
use mieli::app::open_tabs::OpenTabPaths;
use mieli::app::tabs::{
    CloseAction, ConflictDecision, TabDirection, WindowCloseAction, adjacent_tab_id,
    apply_conflict_decision, apply_save_as_identity, apply_workspace_state, autosave_is_eligible,
    close_action, dirty_for_source, display_title, mark_deleted, markdown_destination,
    paths_overlap, save_all_tab_is_writable, window_close_action, workspace_root_for_path,
};
use mieli::autosave::AutosaveKey;
use mieli::file::watcher::FileSystemEvent;
use mieli::file::{FileError, IoErrorKind};
use mieli::i18n::{Language, LocalizedMessage};
use mieli::state::{DiskState, DiskVersion, FileTreeNode, Modal, TabId};

fn save_state(path: &str, title: &str, saved: &str, version: DiskVersion) -> SaveTabState {
    SaveTabState {
        path: path.to_string(),
        title: title.to_string(),
        saved_source: saved.to_string(),
        disk_version: version,
        dirty: true,
        disk_state: DiskState::Conflict,
    }
}

fn version(len: u64, digest: u64) -> DiskVersion {
    DiskVersion { exists: true, len, digest, ..Default::default() }
}

#[test]
fn tab_navigation_wraps_and_uses_the_directional_edge_without_an_active_tab() {
    let tabs = [TabId(10), TabId(20), TabId(30)];

    assert_eq!(adjacent_tab_id(&tabs, Some(TabId(10)), TabDirection::Next), Some(TabId(20)));
    assert_eq!(adjacent_tab_id(&tabs, Some(TabId(30)), TabDirection::Next), Some(TabId(10)));
    assert_eq!(adjacent_tab_id(&tabs, Some(TabId(10)), TabDirection::Previous), Some(TabId(30)));
    assert_eq!(adjacent_tab_id(&tabs, None, TabDirection::Next), Some(TabId(10)));
    assert_eq!(adjacent_tab_id(&tabs, None, TabDirection::Previous), Some(TabId(30)));
    assert_eq!(adjacent_tab_id(&[], None, TabDirection::Next), None);
}

#[test]
fn next_then_previous_returns_to_the_active_tab() {
    let tabs = [TabId(1), TabId(2), TabId(3), TabId(4)];
    for active in tabs {
        let next = adjacent_tab_id(&tabs, Some(active), TabDirection::Next);
        assert_eq!(adjacent_tab_id(&tabs, next, TabDirection::Previous), Some(active));
        let previous = adjacent_tab_id(&tabs, Some(active), TabDirection::Previous);
        assert_eq!(adjacent_tab_id(&tabs, previous, TabDirection::Next), Some(active));
    }
    assert_eq!(adjacent_tab_id(&tabs, Some(TabId(9)), TabDirection::Next), Some(TabId(1)));
}

#[test]
fn nested_file_in_current_workspace_does_not_replace_workspace_root() {
    let root = "/workspace";
    let nested_file = "/workspace/docs/README.md";
    let outside_file = "/other/README.md";

    assert_eq!(workspace_root_for_path(nested_file, false, Some(root)), None);
    assert_eq!(
        workspace_root_for_path(outside_file, false, Some(root)),
        Some(String::from("/other"))
    );
}

#[test]
fn workspace_root_for_path_keeps_directories_and_uses_file_parents() {
    assert_eq!(
        workspace_root_for_path("/tmp/notes", true, None),
        Some(String::from("/tmp/notes"))
    );
    assert_eq!(
        workspace_root_for_path("/tmp/notes/README.md", false, None),
        Some(String::from("/tmp/notes"))
    );
    assert_eq!(
        workspace_root_for_path("/tmp/notes", true, Some("/tmp")),
        Some(String::from("/tmp/notes"))
    );
}

#[test]
fn save_as_adds_markdown_extension_without_replacing_an_existing_extension() {
    assert_eq!(markdown_destination("notes/draft"), "notes/draft.md");
    assert_eq!(markdown_destination("notes/draft.txt"), "notes/draft.txt.md");
    assert_eq!(markdown_destination("notes/draft.MARKDOWN"), "notes/draft.MARKDOWN");
}

#[test]
fn markdown_destination_is_its_own_destination() {
    for chosen in ["notes/draft", "draft.txt", "a.md", "x/.hidden", "a/.."] {
        let once = markdown_destination(chosen);
        assert!(mieli::pathname::is_markdown_file(&once));
        assert_eq!(markdown_destination(&once), once);
    }
}

#[test]
fn titles_are_file_names() {
    assert_eq!(display_title("/notes/today.md"), "today.md");
    assert_eq!(display_title("/"), "/");
    let mut path = String::from("/a/old.md");
    let mut title = String::from("old.md");
    apply_save_as_identity(&mut path, &mut title, String::from("/b/new.md"));
    assert_eq!(path, "/b/new.md");
    assert_eq!(title, "new.md");
}

#[test]
fn dirtiness_follows_the_text() {
    assert!(!dirty_for_source("# A", "# A"));
    assert!(dirty_for_source("# A", "# B"));
}

#[test]
fn overlapping_paths() {
    assert!(paths_overlap("/a", "/a"));
    assert!(paths_overlap("/a", "/a/b.md"));
    assert!(paths_overlap("/a/b.md", "/a"));
    assert!(!paths_overlap("/a", "/ab"));
}

#[test]
fn save_tab_preserves_complete_state_on_error_and_commits_after_success() {
    let original_version = version(3, 1);
    let mut tab = save_state("/notes/original.md", "original.md", "# A", original_version);

    let failed = save_tab_transition(&mut tab, String::from("# B"), |path: &String, _: &String| {
        Err(FileError::other(path, "write"))
    });

    assert!(matches!(failed, Err(LifecycleError::File(_))));
    assert_eq!(tab.path, "/notes/original.md");
    assert_eq!(tab.title, "original.md");
    assert_eq!(tab.saved_source, "# A");
    assert_eq!(tab.disk_version, original_version);
    assert!(tab.dirty);
    assert_eq!(tab.disk_state, DiskState::Conflict);

    let written = version(3, 2);
    let mut seen = None;
    save_tab_transition(&mut tab, String::from("# B"), |path: &String, source: &String| {
        seen = Some((path.clone(), source.clone()));
        Ok(written)
    })
    .unwrap();

    assert_eq!(seen, Some((String::from("/notes/original.md"), String::from("# B"))));
    assert_eq!(tab.path, "/notes/original.md");
    assert_eq!(tab.title, "original.md");
    assert_eq!(tab.saved_source, "# B");
    assert_eq!(tab.disk_version, written);
    assert!(!tab.dirty);
    assert_eq!(tab.disk_state, DiskState::Synced);
}

#[test]
fn save_as_creates_new_destination_before_committing_complete_identity() {
    let mut tab = save_state("/tmp/t/original.md", "original.md", "# A", version(3, 1));
    let mut paths = OpenTabPaths::new();
    let tab_id = paths.insert(String::from("/tmp/t/original.md"));
    let written = version(3, 9);

    let canonical = save_as_transition(
        tab_id,
        &mut tab,
        &mut paths,
        String::from("/tmp/t/renamed"),
        String::from("# B"),
        |d: &String| Ok(d.clone()),
        |_: &String, _: &String| Ok(written),
        |c: &String| Ok(c.clone()),
    )
    .unwrap();

    assert_eq!(canonical, "/tmp/t/renamed.md");
    assert_eq!(tab.path, canonical);
    assert_eq!(tab.title, "renamed.md");
    assert_eq!(tab.saved_source, "# B");
    assert_eq!(tab.disk_version, written);
    assert!(!tab.dirty);
    assert_eq!(tab.disk_state, DiskState::Synced);
    assert_eq!(paths.get("/tmp/t/original.md"), None);
    assert_eq!(paths.get(&canonical), Some(tab_id));
}

#[test]
fn failed_save_as_write_preserves_complete_old_identity_and_path_index() {
    let old_version = version(3, 1);
    let mut tab = save_state("/tmp/t/original.md", "original.md", "# A", old_version);
    let mut paths = OpenTabPaths::new();
    let tab_id = paths.insert(String::from("/tmp/t/original.md"));
    let mut attempted = None;

    let failed = save_as_transition(
        tab_id,
        &mut tab,
        &mut paths,
        String::from("/tmp/t/blocked"),
        String::from("# B"),
        |d: &String| Ok(d.clone()),
        |candidate: &String, _: &String| {
            attempted = Some(candidate.clone());
            Err(FileError::other(candidate, "write"))
        },
        |c: &String| Ok(c.clone()),
    );

    assert!(matches!(failed, Err(LifecycleError::File(_))));
    assert_eq!(attempted, Some(String::from("/tmp/t/blocked.md")));
    assert_eq!(tab.path, "/tmp/t/original.md");
    assert_eq!(tab.title, "original.md");
    assert_eq!(tab.saved_source, "# A");
    assert_eq!(tab.disk_version, old_version);
    assert!(tab.dirty);
    assert_eq!(tab.disk_state, DiskState::Conflict);
    assert_eq!(paths.get("/tmp/t/original.md"), Some(tab_id));
    assert_eq!(paths.get("/tmp/t/blocked.md"), None);
}

#[test]
fn save_as_rejects_existing_symlink_to_open_file_before_write() {
    let old_version = version(3, 1);
    let mut tab = save_state("/tmp/t/original.md", "original.md", "# A", old_version);
    let mut paths = OpenTabPaths::new();
    let tab_id = paths.insert(String::from("/tmp/t/original.md"));
    let target_tab_id = paths.insert(String::from("/tmp/t/open.md"));
    let writes = Cell::new(0);

    let result = save_as_transition(
        tab_id,
        &mut tab,
        &mut paths,
        String::from("/tmp/t/alias.md"),
        String::from("# B"),
        |_: &String| Ok(String::from("/tmp/t/open.md")),
        |_: &String, _: &String| {
            writes.set(writes.get() + 1);
            Ok(DiskVersion::default())
        },
        |c: &String| Ok(c.clone()),
    );

    assert!(matches!(
        result,
        Err(LifecycleError::PathAlreadyOpen { path, tab_id: existing })
            if path == "/tmp/t/open.md" && existing == target_tab_id
    ));
    assert_eq!(writes.get(), 0);
    assert_eq!(tab.path, "/tmp/t/original.md");
    assert_eq!(tab.title, "original.md");
    assert_eq!(tab.saved_source, "# A");
    assert_eq!(tab.disk_version, old_version);
    assert!(tab.dirty);
    assert_eq!(tab.disk_state, DiskState::Conflict);
    assert_eq!(paths.get("/tmp/t/original.md"), Some(tab_id));
    assert_eq!(paths.get("/tmp/t/open.md"), Some(target_tab_id));
}

#[test]
fn save_as_rejects_dangling_symlink_before_write_or_path_reassignment() {
    let old_version = version(3, 1);
    let mut tab = save_state("/tmp/t/original.md", "original.md", "# A", old_version);
    let mut paths = OpenTabPaths::new();
    let tab_id = paths.insert(String::from("/tmp/t/original.md"));
    let target_tab_id = paths.insert(String::from("/tmp/t/open.md"));
    let writes = Cell::new(0);

    let result = save_as_transition(
        tab_id,
        &mut tab,
        &mut paths,
        String::from("/tmp/t/dangling.md"),
        String::from("# B"),
        |d: &String| Err(FileError::from_io(d, "canonicalize", IoErrorKind::NotFound)),
        |_: &String, _: &String| {
            writes.set(writes.get() + 1);
            Ok(DiskVersion::default())
        },
        |c: &String| Ok(c.clone()),
    );

    assert!(matches!(
        result,
        Err(LifecycleError::File(FileError::NotFound { path, operation: "canonicalize" }))
            if path == "/tmp/t/dangling.md"
    ));
    assert_eq!(writes.get(), 0);
    assert_eq!(tab.path, "/tmp/t/original.md");
    assert_eq!(tab.title, "original.md");
    assert_eq!(tab.saved_source, "# A");
    assert_eq!(tab.disk_version, old_version);
    assert!(tab.dirty);
    assert_eq!(tab.disk_state, DiskState::Conflict);
    assert_eq!(paths.get("/tmp/t/original.md"), Some(tab_id));
    assert_eq!(paths.get("/tmp/t/open.md"), Some(target_tab_id));
}

#[test]
fn dirty_close_waits_for_a_decision() {
    assert_eq!(close_action(true), CloseAction::RequestDecision);
    assert_eq!(close_action(false), CloseAction::Remove);
}

#[test]
fn clean_external_change_reloads_and_dirty_external_change_conflicts() {
    let disk_version = version(3, 11);
    let mut state = ExternalChangeState {
        saved_source: String::from("# A"),
        disk_version: DiskVersion::default(),
        dirty: false,
        disk_state: DiskState::Synced,
        autosave_blocked: false,
    };

    let resolution = apply_external_change(&mut state, String::from("# B"), disk_version);

    assert_eq!(resolution, ExternalResolution::Reloaded(String::from("# B")));
    assert_eq!(state.saved_source, "# B");
    assert_eq!(state.disk_version, disk_version);
    assert!(!state.dirty);
    assert_eq!(state.disk_state, DiskState::Synced);
    assert!(!state.autosave_blocked);

    state.dirty = true;
    let resolution = apply_external_change(&mut state, String::from("# Disk"), version(6, 22));

    assert_eq!(resolution, ExternalResolution::Conflict);
    assert_eq!(state.saved_source, "# B");
    assert_eq!(state.disk_version, disk_version);
    assert!(state.dirty);
    assert_eq!(state.disk_state, DiskState::Conflict);
    assert!(state.autosave_blocked);
}

#[test]
fn deleted_file_marks_dirty_and_keep_open_preserves_content() {
    let source = String::from("# A");
    let mut dirty = false;
    let mut disk_state = DiskState::Synced;

    mark_deleted(&mut dirty, &mut disk_state);

    assert_eq!(disk_state, DiskState::Deleted);
    assert!(dirty);
    mark_deleted(&mut dirty, &mut disk_state);
    assert_eq!(source, "# A");
    assert!(dirty);
    assert_eq!(disk_state, DiskState::Deleted);
}

#[test]
fn failed_external_read_blocks_autosave_without_changing_saved_identity() {
    let old_version = version(7, 11);
    let mut state = ExternalChangeState {
        saved_source: String::from("# Saved"),
        disk_version: old_version,
        dirty: true,
        disk_state: DiskState::Synced,
        autosave_blocked: false,
    };

    let result = load_external_change(&mut state, "notes.md", version(6, 22), |path: &str| {
        Err(FileError::other(path, "read"))
    });

    assert!(result.is_err());
    assert_eq!(state.saved_source, "# Saved");
    assert_eq!(state.disk_version, old_version);
    assert!(state.dirty);
    assert_eq!(state.disk_state, DiskState::Conflict);
    assert!(state.autosave_blocked);
    assert!(!save_all_tab_is_writable(state.dirty, state.autosave_blocked));
}

#[test]
fn external_change_read_from_disk_reloads_a_clean_tab() {
    let mut state = ExternalChangeState {
        saved_source: String::from("# Saved"),
        disk_version: version(7, 11),
        dirty: false,
        disk_state: DiskState::Synced,
        autosave_blocked: false,
    };
    let result =
        load_external_change(&mut state, "notes.md", version(6, 22), |_: &str| Ok(String::from("# Disk")));
    assert_eq!(result, Ok(ExternalResolution::Reloaded(String::from("# Disk"))));
    assert_eq!(state.saved_source, "# Disk");
    assert_eq!(state.disk_version, version(6, 22));
}

#[test]
fn window_close_always_attempts_save_before_showing_failed_shutdown() {
    assert_eq!(window_close_action(false, false), WindowCloseAction::Allow);
    assert_eq!(window_close_action(false, true), WindowCloseAction::SaveAll);
    assert_eq!(window_close_action(true, true), WindowCloseAction::Allow);
}

#[test]
fn save_all_error_reports_every_failed_tab() {
    let error = LifecycleError::SaveAll {
        errors: vec![
            LifecycleError::File(FileError::other("first.md", "write")),
            LifecycleError::UnresolvedExternalChange(TabId(2)),
        ],
    };

    let message = error.message();

    assert!(message.contains("2 failures"));
    assert!(message.contains("Could not write first.md"));
    assert!(message.contains("Tab 2 has an unresolved external file change."));
}

#[test]
fn lifecycle_messages_in_both_languages() {
    assert_eq!(LifecycleError::MissingTab(TabId(42)).message(), "Could not find editor tab 42.");
    assert_eq!(
        LifecycleError::MissingRecentEntry(0).localized_message(Language::Chinese),
        "最近打开的第 1 项已不可用。"
    );
    assert_eq!(
        LifecycleError::SaveAll { errors: vec![LifecycleError::NoActiveTab] }.message(),
        "Could not save all dirty files (1 failure): There is no active editor tab."
    );
    assert_eq!(
        LifecycleError::SaveAll {
            errors: vec![LifecycleError::NoActiveTab, LifecycleError::SaveAsRequired(TabId(3))]
        }
        .localized_message(Language::Chinese),
        "无法保存所有未保存文件（2 个失败）：没有活动的编辑器标签页。；标签页 3 需要先使用“另存为”。"
    );
    assert_eq!(
        LifecycleError::MissingRecentFile { path: String::from("/a.md"), cleanup_error: None }.message(),
        "Could not open recent file /a.md: file not found. The entry was removed."
    );
    assert_eq!(
        LifecycleError::PathAlreadyOpen { path: String::from("/a.md"), tab_id: TabId(5) }.message(),
        "/a.md is already open in tab 5."
    );
}

#[test]
fn external_conflict_stays_blocked_until_keep_mine() {
    let mut disk_state = DiskState::Conflict;
    let mut autosave_blocked = true;
    assert_eq!(disk_state, DiskState::Conflict);
    assert!(autosave_blocked);
    assert!(!autosave_is_eligible(true, true, autosave_blocked, false));
    assert!(!save_all_tab_is_writable(true, autosave_blocked));

    apply_conflict_decision(&mut disk_state, &mut autosave_blocked, ConflictDecision::KeepMine);
    assert_eq!(disk_state, DiskState::Conflict);
    assert!(!autosave_blocked);
    assert!(autosave_is_eligible(true, true, autosave_blocked, false));
    assert!(save_all_tab_is_writable(true, autosave_blocked));
}

#[test]
fn dismissing_external_conflict_keeps_the_resolution_modal_visible() {
    let mut active = Some(Modal::ExternalConflict(TabId(7)));
    let mut pending = VecDeque::from([Modal::Shutdown]);

    assert!(!dismiss_modal_state(&mut active, &mut pending));
    assert_eq!(active, Some(Modal::ExternalConflict(TabId(7))));
    assert_eq!(pending, VecDeque::from([Modal::Shutdown]));
}

#[test]
fn dismissing_another_modal_shows_the_next_one() {
    let mut active = Some(Modal::CloseTab(TabId(1)));
    let mut pending = VecDeque::from([Modal::Shutdown]);

    assert!(dismiss_modal_state(&mut active, &mut pending));
    assert_eq!(active, Some(Modal::Shutdown));
    assert!(pending.is_empty());
}

#[test]
fn disconnected_workspace_scan_is_reported_as_an_error() {
    let result = workspace_scan_disconnected("/workspace");

    assert!(matches!(
        result,
        Err(FileError::Io { path, operation: "scan", kind: IoErrorKind::Other }) if path == "/workspace"
    ));
}

#[test]
fn unresolved_external_tabs_are_not_eligible_for_save_all() {
    assert!(!save_all_tab_is_writable(true, true));
    assert!(save_all_tab_is_writable(true, false));
    assert!(!save_all_tab_is_writable(false, false));
}

#[test]
fn watcher_decisions_queue_without_replacing_the_active_modal() {
    let mut active = Some(Modal::CloseTab(TabId(1)));
    let mut pending = VecDeque::new();

    assert!(queue_modal(&mut active, &mut pending, Modal::ExternalConflict(TabId(2))));
    assert!(queue_modal(&mut active, &mut pending, Modal::DeletedFile(TabId(3))));
    assert!(!queue_modal(&mut active, &mut pending, Modal::ExternalConflict(TabId(2))));
    assert_eq!(active, Some(Modal::CloseTab(TabId(1))));
    assert_eq!(
        pending.iter().copied().collect::<Vec<_>>(),
        vec![Modal::ExternalConflict(TabId(2)), Modal::DeletedFile(TabId(3))]
    );

    advance_modal(&mut active, &mut pending);
    assert_eq!(active, Some(Modal::ExternalConflict(TabId(2))));
    advance_modal(&mut active, &mut pending);
    assert_eq!(active, Some(Modal::DeletedFile(TabId(3))));
}

#[test]
fn a_modal_is_shown_at_once_when_nothing_is_shown() {
    let mut active = None;
    let mut pending = VecDeque::new();
    assert!(queue_modal(&mut active, &mut pending, Modal::Shutdown));
    assert_eq!(active, Some(Modal::Shutdown));
    assert!(pending.is_empty());
    assert!(!queue_modal(&mut active, &mut pending, Modal::Shutdown));
}

#[test]
fn clearing_last_dirty_conflict_drops_a_stale_shutdown_modal() {
    let mut active = Some(Modal::ExternalConflict(TabId(2)));
    let mut pending = VecDeque::from([Modal::Shutdown]);

    clear_tab_modal_state(&mut active, &mut pending, TabId(2), false);

    assert_eq!(active, None);
    assert!(pending.is_empty());
}

#[test]
fn clearing_a_dirty_conflict_keeps_shutdown_when_other_dirty_tabs_remain() {
    let mut active = Some(Modal::ExternalConflict(TabId(2)));
    let mut pending = VecDeque::from([Modal::Shutdown]);

    clear_tab_modal_state(&mut active, &mut pending, TabId(2), true);

    assert_eq!(active, Some(Modal::Shutdown));
    assert!(pending.is_empty());
}

#[test]
fn successful_save_all_cleanup_removes_stale_shutdown_state() {
    let mut active = Some(Modal::Shutdown);
    let mut pending = VecDeque::from([Modal::DeletedFile(TabId(4))]);

    clear_shutdown_modal(&mut active, &mut pending, false);

    assert_eq!(active, Some(Modal::DeletedFile(TabId(4))));
    assert!(pending.is_empty());

    let mut active = Some(Modal::CloseTab(TabId(1)));
    let mut pending = VecDeque::from([Modal::Shutdown]);

    clear_shutdown_modal(&mut active, &mut pending, false);

    assert_eq!(active, Some(Modal::CloseTab(TabId(1))));
    assert!(pending.is_empty());
}

#[test]
fn autosave_rejects_stale_identity_and_preserves_dirty_state_on_write_failure() {
    let old_version = version(7, 11);
    let mut tab = SaveTabState {
        path: String::from("notes.md"),
        title: String::from("notes.md"),
        saved_source: String::from("# Saved"),
        disk_version: old_version,
        dirty: true,
        disk_state: DiskState::Conflict,
    };
    let key = AutosaveKey { tab_id: TabId(7), generation: 3, path: String::from("notes.md") };
    let writes = Cell::new(0);

    let stale = autosave_transition(&key, TabId(7), 4, &mut tab, String::from("# Local"), |_: &String, _: &String| {
        writes.set(writes.get() + 1);
        Ok(DiskVersion::default())
    })
    .unwrap();

    assert!(!stale);
    assert_eq!(writes.get(), 0);

    let error = autosave_transition(&key, TabId(7), 3, &mut tab, String::from("# Local"), |path: &String, _: &String| {
        Err(FileError::other(path, "write"))
    })
    .unwrap_err();

    assert!(matches!(error, LifecycleError::File(_)));
    assert_eq!(tab.saved_source, "# Saved");
    assert_eq!(tab.disk_version, old_version);
    assert!(tab.dirty);
    assert_eq!(tab.disk_state, DiskState::Conflict);

    let saved = autosave_transition(&key, TabId(7), 3, &mut tab, String::from("# Local"), |_: &String, _: &String| {
        Ok(version(7, 12))
    })
    .unwrap();
    assert!(saved);
    assert_eq!(tab.saved_source, "# Local");
    assert!(!tab.dirty);
}

#[test]
fn clean_close_removes_only_the_target_path() {
    let mut paths = OpenTabPaths::new();
    let first = paths.insert(String::from("first.md"));
    let second = paths.insert(String::from("second.md"));

    paths.remove("first.md");

    assert_eq!(paths.get("first.md"), None);
    assert_eq!(paths.get("second.md"), Some(second));
    assert_ne!(first, second);
    assert_eq!(paths.len(), 1);
}

#[test]
fn canonical_paths_prevent_duplicate_tabs() {
    let mut paths = OpenTabPaths::new();
    let first = paths.insert(String::from("/notes/README.md"));
    let second = paths.insert(String::from("/notes/README.md"));

    assert_eq!(first, second);
    assert_eq!(paths.len(), 1);
}

#[test]
fn identities_are_fresh_and_increasing() {
    let mut paths = OpenTabPaths::new();
    let a = paths.allocate();
    let b = paths.insert(String::from("/x.md"));
    let c = paths.allocate();
    assert_eq!((a, b, c), (TabId(1), TabId(2), TabId(3)));
    paths.replace("/x.md", String::from("/y.md"), b);
    assert_eq!(paths.get("/x.md"), None);
    assert_eq!(paths.get("/y.md"), Some(b));
    paths.replace("", String::from("/z.md"), a);
    assert_eq!(paths.get("/z.md"), Some(a));
    assert_eq!(paths.len(), 2);
}

#[test]
fn workspace_changes_do_not_remove_open_tabs() {
    let first_path = String::from("/tmp/w/inside.md");
    let second_path = String::from("/tmp/w/outside.md");
    let mut paths = OpenTabPaths::new();
    let first = paths.insert(first_path.clone());
    let second = paths.insert(second_path.clone());
    let mut workspace_root = None;
    let mut file_tree = Vec::new();
    let expected_tree = vec![FileTreeNode {
        path: first_path.clone(),
        name: String::from("inside.md"),
        is_dir: false,
        expanded: true,
        children: Vec::new(),
    }];

    apply_workspace_state(&mut workspace_root, &mut file_tree, String::from("/tmp/w"), expected_tree.clone());

    assert_eq!(workspace_root, Some(String::from("/tmp/w")));
    assert_eq!(file_tree, expected_tree);
    assert_eq!(paths.get(&first_path), Some(first));
    assert_eq!(paths.get(&second_path), Some(second));
    assert_eq!(paths.len(), 2);
}

fn docs_tree() -> Vec<FileTreeNode> {
    vec![FileTreeNode {
        path: String::from("/workspace/docs"),
        name: String::from("docs/"),
        is_dir: true,
        expanded: true,
        children: vec![FileTreeNode {
            path: String::from("/workspace/docs/guide.md"),
            name: String::from("guide.md"),
            is_dir: false,
            expanded: true,
            children: Vec::new(),
        }],
    }]
}

#[test]
fn workspace_rescan_ignores_non_markdown_created_paths() {
    let event = FileSystemEvent::Created(String::from("/workspace/target/debug/test-binary"));

    assert!(!workspace_event_requires_rescan(Some("/workspace"), &[], &event));
}

#[test]
fn workspace_rescan_includes_markdown_changes_and_known_directory_removals() {
    let tree = docs_tree();

    assert!(workspace_event_requires_rescan(
        Some("/workspace"),
        &tree,
        &FileSystemEvent::Created(String::from("/workspace/new.md")),
    ));
    assert!(workspace_event_requires_rescan(
        Some("/workspace"),
        &tree,
        &FileSystemEvent::Removed(String::from("/workspace/old.markdown")),
    ));
    assert!(workspace_event_requires_rescan(
        Some("/workspace"),
        &tree,
        &FileSystemEvent::Removed(String::from("/workspace/docs")),
    ));
}

#[test]
fn workspace_rescan_ignores_unrelated_removed_paths_and_outside_events() {
    assert!(!workspace_event_requires_rescan(
        Some("/workspace"),
        &[],
        &FileSystemEvent::Removed(String::from("/workspace/target/cache")),
    ));
    assert!(!workspace_event_requires_rescan(
        Some("/workspace"),
        &[],
        &FileSystemEvent::Created(String::from("/other/new.md")),
    ));
    assert!(!workspace_event_requires_rescan(
        None,
        &[],
        &FileSystemEvent::Created(String::from("/workspace/new.md")),
    ));
}

#[test]
fn tree_lookup_finds_nested_nodes_and_their_ancestors() {
    let tree = docs_tree();
    assert!(file_tree_contains_path(&tree, "/workspace/docs/guide.md"));
    assert!(file_tree_contains_path(&tree, "/workspace/docs"));
    assert!(file_tree_contains_path(&tree, "/workspace"));
    assert!(!file_tree_contains_path(&tree, "/workspace/other"));
}
