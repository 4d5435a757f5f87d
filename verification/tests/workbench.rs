use mieli::app::lifecycle::LifecycleError;
use mieli::app::workbench::Workbench;
use mieli::autosave::AutosaveKey;
use mieli::config::recent::{ConfigRead, RecentFiles, RecentFilesError};
use mieli::file::watcher::{FileSystemEvent, WatchError};
use mieli::file::{FileError, IoErrorKind};
use mieli::i18n::{Language, LocalizedMessage};
use mieli::state::{DiskState, DiskVersion, Modal, TabId};

fn workbench() -> Workbench {
    Workbench::new(Language::English, RecentFiles::in_memory(20), None, None)
}

fn version(len: u64, digest: u64) -> DiskVersion {
    DiskVersion { exists: true, len, digest, ..Default::default() }
}

fn open(w: &mut Workbench, path: &str, text: &str) -> Result<TabId, LifecycleError> {
    let text = text.to_string();
    w.open_file(
        path.to_string(),
        |p: &String| Ok(p.clone()),
        move |_: &String| Ok((text, version(3, 1))),
        no_store,
    )
}

fn no_store(_: &String, _: &Vec<String>) -> Result<(), RecentFilesError> {
    Ok(())
}

fn ok_writer(_: &String, source: &String) -> Result<DiskVersion, FileError> {
    Ok(version(source.len() as u64, 7))
}

#[test]
fn untitled_tabs_are_numbered_after_the_first() {
    let mut w = workbench();
    let first = w.new_tab();
    let second = w.new_tab();
    assert_eq!(w.state().tabs[0].title, "Untitled");
    assert_eq!(w.state().tabs[1].title, format!("Untitled {}", second.0));
    assert_ne!(first, second);
    assert_eq!(w.state().active_tab, Some(second));
}

#[test]
fn opening_the_same_file_twice_activates_its_tab() {
    let mut w = workbench();
    let a = open(&mut w, "/n/a.md", "# A").unwrap();
    let b = open(&mut w, "/n/b.md", "# B").unwrap();
    assert_eq!(w.state().active_tab, Some(b));
    let again = open(&mut w, "/n/a.md", "# ignored").unwrap();
    assert_eq!(again, a);
    assert_eq!(w.state().tabs.len(), 2);
    assert_eq!(w.state().active_tab, Some(a));
    assert_eq!(w.state().tabs[0].saved_source, "# A");
    assert_eq!(w.state().tabs[0].title, "a.md");
    assert_eq!(w.state().recent_files.paths(), &[String::from("/n/a.md"), String::from("/n/b.md")]);
}

#[test]
fn non_markdown_and_unreadable_files_are_refused_and_reported() {
    let mut w = workbench();
    let err = open(&mut w, "/n/a.txt", "x").unwrap_err();
    assert!(matches!(err, LifecycleError::File(FileError::NotMarkdown { ref path }) if path == "/n/a.txt"));
    assert!(w.notification().is_some());
    assert!(w.state().tabs.is_empty());

    let err = w
        .open_file(
            String::from("/n/gone.md"),
            |p: &String| Err(FileError::from_io(p, "canonicalize", IoErrorKind::NotFound)),
            |_: &String| Ok((String::new(), DiskVersion::default())),
            no_store,
        )
        .unwrap_err();
    assert!(matches!(err, LifecycleError::File(FileError::NotFound { .. })));
    assert!(w.state().tabs.is_empty());
}

#[test]
fn editing_marks_dirty_and_asks_for_an_autosave() {
    let mut w = workbench();
    let a = open(&mut w, "/n/a.md", "# A").unwrap();
    let key = w.editor_changed(a, "# A!").unwrap();
    assert_eq!(key.tab_id, a);
    assert_eq!(key.generation, 1);
    assert_eq!(key.path, "/n/a.md");
    assert!(w.state().tabs[0].dirty);
    assert!(w.autosave_key_is_current(&key));

    assert!(w.editor_changed(a, "# A").is_none());
    assert!(!w.state().tabs[0].dirty);
    assert!(!w.autosave_key_is_current(&key));
    assert!(w.editor_changed(TabId(99), "x").is_none());
}

#[test]
fn autosave_writes_only_current_edits() {
    let mut w = workbench();
    let a = open(&mut w, "/n/a.md", "# A").unwrap();
    let stale = w.editor_changed(a, "# B").unwrap();
    let current = w.editor_changed(a, "# C").unwrap();
    assert!(!w.run_autosave(&stale, String::from("# C"), ok_writer));
    assert!(w.state().tabs[0].dirty);
    assert!(w.run_autosave(&current, String::from("# C"), ok_writer));
    assert!(!w.state().tabs[0].dirty);
    assert_eq!(w.state().tabs[0].saved_source, "# C");
}

#[test]
fn saving_refuses_untitled_missing_and_blocked_tabs() {
    let mut w = workbench();
    let untitled = w.new_tab();
    assert!(matches!(
        w.save_tab(untitled, String::new(), ok_writer),
        Err(LifecycleError::SaveAsRequired(t)) if t == untitled
    ));
    assert!(matches!(
        w.save_tab(TabId(42), String::new(), ok_writer),
        Err(LifecycleError::MissingTab(TabId(42)))
    ));
    let a = open(&mut w, "/n/a.md", "# A").unwrap();
    w.enter_conflict(a);
    assert!(matches!(
        w.save_tab(a, String::from("# A"), ok_writer),
        Err(LifecycleError::UnresolvedExternalChange(t)) if t == a
    ));
    assert_eq!(w.modal(), Some(Modal::ExternalConflict(a)));
}

#[test]
fn a_failed_save_keeps_the_tab_and_reports() {
    let mut w = workbench();
    let a = open(&mut w, "/n/a.md", "# A").unwrap();
    w.editor_changed(a, "# B");
    let result = w.save_tab(a, String::from("# B"), |p: &String, _: &String| Err(FileError::other(p, "write")));
    assert!(matches!(result, Err(LifecycleError::File(_))));
    assert!(w.state().tabs[0].dirty);
    assert_eq!(w.state().tabs[0].saved_source, "# A");
    assert_eq!(w.notification().unwrap().message, "Could not write /n/a.md: other error.");
}

#[test]
fn closing_a_dirty_tab_asks_first_and_discarding_closes_it() {
    let mut w = workbench();
    let a = open(&mut w, "/n/a.md", "# A").unwrap();
    let b = open(&mut w, "/n/b.md", "# B").unwrap();
    w.editor_changed(a, "# A changed");
    assert!(!w.close_tab(a));
    assert_eq!(w.modal(), Some(Modal::CloseTab(a)));
    assert_eq!(w.state().tabs.len(), 2);
    assert!(!w.discard_close_tab(b));
    assert!(w.discard_close_tab(a));
    assert_eq!(w.state().tabs.len(), 1);
    assert_eq!(w.modal(), None);
    assert!(w.close_tab(b));
    assert!(w.state().tabs.is_empty());
    assert_eq!(w.state().active_tab, None);
    let again = open(&mut w, "/n/a.md", "# A").unwrap();
    assert_ne!(again, a);
}

#[test]
fn closing_the_active_tab_activates_its_neighbour() {
    let mut w = workbench();
    let a = open(&mut w, "/n/a.md", "").unwrap();
    let b = open(&mut w, "/n/b.md", "").unwrap();
    let c = open(&mut w, "/n/c.md", "").unwrap();
    assert!(w.switch_tab(b, String::new(), ok_writer));
    assert!(w.close_tab(b));
    assert_eq!(w.state().active_tab, Some(c));
    assert!(w.close_tab(c));
    assert_eq!(w.state().active_tab, Some(a));
}

#[test]
fn switching_away_from_a_dirty_tab_saves_it() {
    let mut w = workbench();
    let a = open(&mut w, "/n/a.md", "# A").unwrap();
    let b = open(&mut w, "/n/b.md", "# B").unwrap();
    w.editor_changed(b, "# B2");
    assert!(w.switch_tab(a, String::from("# B2"), ok_writer));
    assert_eq!(w.state().active_tab, Some(a));
    assert!(!w.state().tabs[1].dirty);
    assert_eq!(w.state().tabs[1].saved_source, "# B2");
    assert!(!w.switch_tab(TabId(77), String::new(), ok_writer));
}

#[test]
fn tab_navigation_wraps() {
    let mut w = workbench();
    let a = open(&mut w, "/n/a.md", "").unwrap();
    let b = open(&mut w, "/n/b.md", "").unwrap();
    assert!(w.next_tab(String::new(), ok_writer));
    assert_eq!(w.state().active_tab, Some(a));
    assert!(w.previous_tab(String::new(), ok_writer));
    assert_eq!(w.state().active_tab, Some(b));
}

#[test]
fn save_as_moves_the_tab_to_its_new_file() {
    let mut w = workbench();
    let t = w.new_tab();
    let saved = w
        .save_as(
            t,
            String::from("/n/draft"),
            String::from("# Draft"),
            |d: &String| Ok(d.clone()),
            ok_writer,
            |c: &String| Ok(c.clone()),
            no_store,
        )
        .unwrap();
    assert_eq!(saved, "/n/draft.md");
    assert_eq!(w.state().tabs[0].path, "/n/draft.md");
    assert_eq!(w.state().tabs[0].title, "draft.md");
    assert!(!w.state().tabs[0].dirty);
    assert_eq!(open(&mut w, "/n/draft.md", "other").unwrap(), t);
    assert_eq!(w.state().tabs.len(), 1);
}

#[test]
fn save_all_reports_every_failure_and_shutdown_waits() {
    let mut w = workbench();
    let a = open(&mut w, "/n/a.md", "# A").unwrap();
    let b = open(&mut w, "/n/b.md", "# B").unwrap();
    w.editor_changed(a, "# A2");
    w.editor_changed(b, "# B2");
    w.enter_conflict(b);
    let sources = vec![String::from("# A2"), String::from("# B2")];
    let result = w.save_all(&sources, &ok_writer);
    assert!(matches!(result, Err(LifecycleError::SaveAll { ref errors }) if errors.len() == 1));
    assert!(!w.state().tabs[0].dirty);
    assert!(w.state().tabs[1].dirty);

    assert!(!w.should_close_window(&sources, &ok_writer));
    assert!(w.modal() == Some(Modal::Shutdown) || w.modal() == Some(Modal::ExternalConflict(b)));
    assert!(w.keep_mine(b));
    assert!(w.should_close_window(&sources, &ok_writer));
    assert_eq!(w.modal(), None);
}

#[test]
fn quitting_anyway_allows_closing() {
    let mut w = workbench();
    let a = open(&mut w, "/n/a.md", "# A").unwrap();
    w.editor_changed(a, "# A2");
    let sources = vec![String::from("# A2")];
    let failing = |p: &String, _: &String| -> Result<DiskVersion, FileError> { Err(FileError::other(p, "write")) };
    assert!(!w.should_close_window(&sources, &failing));
    assert_eq!(w.modal(), Some(Modal::Shutdown));
    w.quit_anyway();
    assert_eq!(w.modal(), None);
    assert!(w.should_close_window(&sources, &failing));
}

#[test]
fn external_changes_reload_clean_tabs_and_conflict_dirty_ones() {
    let mut w = workbench();
    let a = open(&mut w, "/n/a.md", "# A").unwrap();
    let b = open(&mut w, "/n/b.md", "# B").unwrap();
    let reloaded = w.handle_changed_path(
        "/n/a.md",
        |_: &str| None,
        |_: &String| Ok(version(9, 9)),
        |_: &str| Ok(String::from("# From disk")),
    );
    assert_eq!(reloaded, Some(String::from("# From disk")));
    assert_eq!(w.state().tabs[0].saved_source, "# From disk");

    let unchanged = w.handle_changed_path(
        "/n/a.md",
        |_: &str| None,
        |_: &String| Ok(version(9, 9)),
        |_: &str| Ok(String::from("# Other")),
    );
    assert_eq!(unchanged, None);
    assert_eq!(w.state().tabs[0].saved_source, "# From disk");

    w.editor_changed(b, "# B mine");
    assert_eq!(
        w.handle_changed_path("/n/b.md", |_: &str| None, |_: &String| Ok(version(4, 4)), |_: &str| Ok(String::from("# B theirs"))),
        None
    );
    assert_eq!(w.state().tabs[1].disk_state, DiskState::Conflict);
    assert!(w.state().tabs[1].autosave_blocked);
    assert!(w.state().tabs[1].dirty);
    assert_eq!(w.state().tabs[1].saved_source, "# B");
    assert_eq!(w.state().tabs[0].saved_source, "# From disk");
    assert_eq!(w.modal(), Some(Modal::ExternalConflict(b)));
    assert!(!w.dismiss_modal());
    assert_eq!(w.modal(), Some(Modal::ExternalConflict(b)));

    let source = w
        .reload_external_file(b, |_: &String| Ok(version(4, 4)), |_: &String| Ok(String::from("# B theirs")))
        .unwrap();
    assert_eq!(source, Some(String::from("# B theirs")));
    assert!(!w.state().tabs[1].dirty);
    assert_eq!(w.modal(), None);
    let _ = a;
}

#[test]
fn deleted_files_are_asked_about_and_can_stay_open() {
    let mut w = workbench();
    let a = open(&mut w, "/n/a.md", "# A").unwrap();
    let missing = DiskVersion { exists: false, ..Default::default() };
    assert_eq!(
        w.handle_changed_path("/n/a.md", |_: &str| None, move |_: &String| Ok(missing), |_: &str| Ok(String::new())),
        None
    );
    assert_eq!(w.modal(), Some(Modal::DeletedFile(a)));
    assert!(w.state().tabs[0].dirty);
    assert!(w.keep_deleted_file_open(a));
    assert_eq!(w.state().tabs[0].disk_state, DiskState::Deleted);
    assert!(!w.state().tabs[0].autosave_blocked);
    assert_eq!(w.modal(), None);
}

#[test]
fn missing_recent_entries_are_reported() {
    let mut w = workbench();
    assert!(matches!(
        w.open_recent(0, |p: &String| Ok(p.clone()), |_: &String| Ok((String::new(), DiskVersion::default())), |p: &String| Some(p.clone()), &no_store),
        Err(LifecycleError::MissingRecentEntry(0))
    ));
    open(&mut w, "/n/a.md", "").unwrap();
    let a = w.state().tabs[0].id;
    assert!(w.close_tab(a));
    let result = w.open_recent(
        0,
        |p: &String| Err(FileError::from_io(p, "canonicalize", IoErrorKind::NotFound)),
        |_: &String| Ok((String::new(), DiskVersion::default())),
        |p: &String| Some(p.clone()),
        &no_store,
    );
    assert!(matches!(result, Err(LifecycleError::MissingRecentFile { ref path, cleanup_error: None }) if path == "/n/a.md"));
    assert!(w.state().recent_files.paths().is_empty());
}

#[test]
fn watcher_events_are_deduplicated_and_errors_shown() {
    let mut w = workbench();
    w.begin_workspace(String::from("/w"));
    let (paths, rescan) = w.apply_watch_events(vec![
        FileSystemEvent::Changed(String::from("/w/a.md")),
        FileSystemEvent::Error { path: None, message: String::from("boom") },
        FileSystemEvent::Changed(String::from("/w/a.md")),
        FileSystemEvent::Removed(String::from("/x/b.txt")),
    ]);
    assert_eq!(paths, vec![String::from("/w/a.md"), String::from("/x/b.txt")]);
    assert!(rescan);
    assert_eq!(w.notification().unwrap().message, "File watcher error: boom");

    let (sorted, rescan) = w.apply_watch_events(vec![
        FileSystemEvent::Created(String::from("/w/z.md")),
        FileSystemEvent::Changed(String::from("/w/a b.md")),
        FileSystemEvent::Changed(String::from("/w/a/c.md")),
        FileSystemEvent::Error { path: Some(String::from("/w")), message: String::from("late") },
    ]);
    assert_eq!(
        sorted,
        vec![String::from("/w/a/c.md"), String::from("/w/a b.md"), String::from("/w/z.md")]
    );
    assert!(rescan);
    assert_eq!(w.notification().unwrap().message, "File watcher error for /w: late");
}

#[test]
fn workspace_scans_replace_the_previous_tree() {
    let mut w = workbench();
    let expansion = w.begin_workspace(String::from("/w"));
    assert!(expansion.is_empty());
    assert!(w.state().sidebar_visible);
    w.receive_scanned_paths("/w", vec![String::from("/w/docs/a.md"), String::from("/w/b.md")], &expansion, true);
    assert_eq!(w.state().file_tree.len(), 2);
    assert!(w.toggle_tree_path("/w/docs"));
    let kept = w.begin_workspace(String::from("/w"));
    assert_eq!(kept, vec![(String::from("/w/docs"), false)]);
    w.receive_scanned_paths("/w", vec![String::from("/w/docs/a.md")], &kept, true);
    assert_eq!(w.state().file_tree.len(), 1);
    assert!(!w.state().file_tree[0].expanded);
    w.finish_scan(false);
    assert_eq!(w.state().file_tree.len(), 1);
}

#[test]
fn autosave_keys_name_tab_generation_and_path() {
    let mut w = workbench();
    let a = open(&mut w, "/n/a.md", "x").unwrap();
    let key = AutosaveKey { tab_id: a, generation: 0, path: String::from("/n/a.md") };
    assert!(!w.autosave_key_is_current(&key));
    assert!(w.autosave_request_for(a).is_none());
    w.editor_changed(a, "y");
    assert!(w.autosave_request_for(a).is_some());
    assert_eq!(w.active_file_path(), Some(String::from("/n/a.md")));
}

#[test]
fn files_outside_the_workspace_are_watched_through_their_parents() {
    let mut w = workbench();
    open(&mut w, "/w/a.md", "a").unwrap();
    open(&mut w, "/elsewhere/b.md", "b").unwrap();
    w.new_tab();
    assert_eq!(w.files_outside(None), vec![String::from("/w/a.md"), String::from("/elsewhere/b.md")]);
    assert_eq!(w.files_outside(Some("/w")), vec![String::from("/elsewhere/b.md")]);
    assert!(w.needs_parent_watch("/w/a.md"));
    w.begin_workspace(String::from("/w"));
    assert!(!w.needs_parent_watch("/w/a.md"));
    assert!(w.needs_parent_watch("/elsewhere/b.md"));
    assert!(w.needs_access_scope("/w"));
    assert!(w.needs_access_scope("/elsewhere"));
    assert!(w.needs_access_scope("/elsewhere/b.md"));
    assert!(!w.needs_access_scope("/other"));
}

#[test]
fn failed_inspections_and_reads_are_reported_and_conflict() {
    let mut w = workbench();
    let a = open(&mut w, "/n/a.md", "# A").unwrap();
    let denied = FileError::from_io("/n/a.md", "inspect", IoErrorKind::PermissionDenied);
    let reported = denied.clone();
    assert_eq!(
        w.handle_changed_path("/n/a.md", |_: &str| None, move |_: &String| Err(reported), |_: &str| Ok(String::new())),
        None
    );
    assert_eq!(w.state().tabs[0].disk_state, DiskState::Conflict);
    assert!(w.state().tabs[0].autosave_blocked);
    assert_eq!(w.state().tabs[0].saved_source, "# A");
    assert_eq!(w.notification().map(|n| n.message.clone()), Some(denied.message()));
    assert_eq!(w.modal(), Some(Modal::ExternalConflict(a)));

    let mut w = workbench();
    open(&mut w, "/n/b.md", "# B").unwrap();
    let unreadable = FileError::from_io("/n/b.md", "read", IoErrorKind::InvalidData);
    let reported = unreadable.clone();
    assert_eq!(
        w.handle_changed_path("/n/alias.md", |_: &str| Some(String::from("/n/b.md")), |_: &String| Ok(version(8, 8)), move |_: &str| Err(reported)),
        None
    );
    assert_eq!(w.state().tabs[0].disk_state, DiskState::Conflict);
    assert_eq!(w.state().tabs[0].disk_version, version(3, 1));
    assert_eq!(w.notification().map(|n| n.message.clone()), Some(unreadable.message()));

    let mut w = workbench();
    open(&mut w, "/n/c.md", "# C").unwrap();
    assert_eq!(
        w.handle_changed_path("/n/other.md", |_: &str| None, |_: &String| Ok(version(8, 8)), |_: &str| Ok(String::new())),
        None
    );
    assert_eq!(w.state().tabs[0].disk_state, DiskState::Synced);
    assert!(w.notification().is_none());
}

#[test]
fn keeping_my_changes_asks_for_the_next_valid_autosave() {
    let mut w = workbench();
    let a = open(&mut w, "/n/a.md", "# A").unwrap();
    w.editor_changed(a, "# mine");
    w.handle_changed_path("/n/a.md", |_: &str| None, |_: &String| Ok(version(5, 5)), |_: &str| Ok(String::from("# theirs")));
    assert!(w.autosave_request_for(a).is_none());
    assert!(w.keep_mine(a));
    let key = w.autosave_request_for(a).unwrap();
    assert!(w.autosave_key_is_current(&key));
    assert_eq!(w.state().tabs[0].path, "/n/a.md");
    assert!(w.run_autosave(&key, String::from("# mine"), ok_writer));
    assert_eq!(w.state().tabs[0].saved_source, "# mine");
}

#[test]
fn saving_and_closing_closes_only_after_the_write() {
    let mut w = workbench();
    let a = open(&mut w, "/n/a.md", "# A").unwrap();
    w.editor_changed(a, "# B");
    let failed = w.save_and_close_tab(a, String::from("# B"), |p: &String, _: &String| Err(FileError::other(p, "write")));
    assert!(matches!(failed, Err(LifecycleError::File(_))));
    assert_eq!(w.state().tabs.len(), 1);
    assert!(w.state().tabs[0].dirty);
    assert!(matches!(w.save_and_close_tab(TabId(9), String::new(), ok_writer), Err(LifecycleError::MissingTab(TabId(9)))));
    assert_eq!(w.save_and_close_tab(a, String::from("# B"), ok_writer).unwrap(), true);
    assert!(w.state().tabs.is_empty());
}

#[test]
fn reloading_a_conflict_handles_failures_and_deletion() {
    let mut w = workbench();
    let a = open(&mut w, "/n/a.md", "# A").unwrap();
    w.enter_conflict(a);
    let failed = w.reload_external_file(a, |p: &String| Err(FileError::other(p, "inspect")), |_: &String| Ok(String::new()));
    assert!(matches!(failed, Err(LifecycleError::File(_))));
    assert_eq!(w.modal(), Some(Modal::ExternalConflict(a)));
    assert_eq!(w.state().tabs[0].saved_source, "# A");

    let missing = DiskVersion::missing();
    assert_eq!(w.reload_external_file(a, move |_: &String| Ok(missing), |_: &String| Ok(String::new())).unwrap(), None);
    assert_eq!(w.state().tabs[0].disk_state, DiskState::Deleted);
    assert!(w.state().tabs[0].dirty);

    assert!(!w.dismiss_modal());
    assert_eq!(w.modal(), Some(Modal::ExternalConflict(a)));
    assert!(w.keep_mine(a));
    assert_eq!(w.modal(), None);
    assert!(!w.dismiss_modal());
    w.close_tab(a);
    assert_eq!(w.modal(), Some(Modal::CloseTab(a)));
    assert!(w.dismiss_modal());
    assert_eq!(w.modal(), None);
}

#[test]
fn startup_reports_the_watcher_before_recent_files() {
    let both = Workbench::new(
        Language::English,
        RecentFiles::in_memory(20),
        Some(RecentFilesError::ConfigUnavailable),
        Some(WatchError::MissingParent { path: String::from("/x") }),
    );
    assert_eq!(both.notification().unwrap().message, "Could not watch /x: parent directory not found.");
    let recent_only =
        Workbench::new(Language::English, RecentFiles::in_memory(20), Some(RecentFilesError::ConfigUnavailable), None);
    assert_eq!(
        recent_only.notification().unwrap().message,
        "Could not resolve the Recent Files configuration directory."
    );
    assert!(workbench().notification().is_none());
}

#[test]
fn switching_to_the_active_tab_changes_nothing() {
    let mut w = workbench();
    let a = open(&mut w, "/n/a.md", "# A").unwrap();
    w.editor_changed(a, "# A2");
    let failing = |p: &String, _: &String| -> Result<DiskVersion, FileError> { Err(FileError::other(p, "write")) };
    assert!(w.switch_tab(a, String::from("# A2"), failing));
    assert!(w.state().tabs[0].dirty);
    assert!(w.notification().is_none());
    assert_eq!(w.state().active_tab, Some(a));
}

#[test]
fn keeping_a_deleted_file_open_shows_the_next_question() {
    let mut w = workbench();
    let a = open(&mut w, "/n/a.md", "# A").unwrap();
    let b = open(&mut w, "/n/b.md", "# B").unwrap();
    let missing = DiskVersion { exists: false, ..Default::default() };
    w.handle_changed_path("/n/a.md", |_: &str| None, move |_: &String| Ok(missing), |_: &str| Ok(String::new()));
    w.handle_changed_path("/n/b.md", |_: &str| None, move |_: &String| Ok(missing), |_: &str| Ok(String::new()));
    assert_eq!(w.modal(), Some(Modal::DeletedFile(a)));
    assert!(w.keep_deleted_file_open(a));
    assert_eq!(w.modal(), Some(Modal::DeletedFile(b)));
    assert!(w.close_deleted_file(b));
    assert_eq!(w.modal(), None);
    assert_eq!(w.state().tabs.len(), 1);
    assert_eq!(w.state().active_tab, Some(a));
    assert_eq!(open(&mut w, "/n/b.md", "# B again").unwrap().0, b.0 + 1);
}

#[test]
fn save_all_lists_failures_in_tab_order() {
    let mut w = workbench();
    let a = open(&mut w, "/n/a.md", "# A").unwrap();
    let t = w.new_tab();
    let c = open(&mut w, "/n/c.md", "# C").unwrap();
    w.editor_changed(a, "# A2");
    w.editor_changed(t, "draft");
    w.editor_changed(c, "# C2");
    w.enter_conflict(a);
    let writer = |p: &String, s: &String| -> Result<DiskVersion, FileError> {
        if p == "/n/c.md" { Err(FileError::other(p, "write")) } else { ok_writer(p, s) }
    };
    let sources = vec![String::from("# A2"), String::from("draft"), String::from("# C2")];
    let result = w.save_all(&sources, &writer);
    let errors = match result {
        Err(LifecycleError::SaveAll { errors }) => errors,
        other => panic!("expected SaveAll, got {:?}", other),
    };
    assert_eq!(errors.len(), 3);
    assert!(matches!(errors[0], LifecycleError::UnresolvedExternalChange(id) if id == a));
    assert!(matches!(errors[1], LifecycleError::SaveAsRequired(id) if id == t));
    assert!(matches!(&errors[2], LifecycleError::File(FileError::Io { path, operation, kind: IoErrorKind::Other })
        if path == "/n/c.md" && *operation == "write"));
}

#[test]
fn save_as_refuses_a_file_open_in_another_tab_before_writing() {
    let mut w = workbench();
    let a = open(&mut w, "/n/a.md", "# A").unwrap();
    let t = w.new_tab();
    let result = w.save_as(
        t,
        String::from("/n/a.md"),
        String::from("other"),
        |d: &String| Ok(d.clone()),
        |p: &String, _: &String| -> Result<DiskVersion, FileError> { Err(FileError::other(p, "write")) },
        |c: &String| Ok(c.clone()),
        no_store,
    );
    assert!(matches!(result, Err(LifecycleError::PathAlreadyOpen { ref path, tab_id }) if path == "/n/a.md" && tab_id == a));
    assert_eq!(w.state().tabs[1].path, "");
    assert_eq!(open(&mut w, "/n/a.md", "x").unwrap(), a);
}

#[test]
fn stale_recent_entries_go_even_without_a_comparison_form() {
    let mut recent = RecentFiles::load_from_path(String::from("/t/recent.json"), 20, ConfigRead::Missing).unwrap();
    recent.record_success(String::from("/t/a.md"), Some(String::from("/t/a.md")), no_store).unwrap();
    let mut w = Workbench::new(Language::English, recent, None, None);
    let result = w.open_recent(
        0,
        |p: &String| Err(FileError::from_io(p, "canonicalize", IoErrorKind::NotFound)),
        |_: &String| Ok((String::new(), DiskVersion::default())),
        |_: &String| None,
        &no_store,
    );
    assert!(matches!(result, Err(LifecycleError::MissingRecentFile { ref path, cleanup_error: None }) if path == "/t/a.md"));
    assert!(w.state().recent_files.paths().is_empty());
}

#[test]
fn unreadable_recent_files_stay_listed() {
    let mut w = workbench();
    open(&mut w, "/n/a.md", "").unwrap();
    let a = w.state().tabs[0].id;
    assert!(w.close_tab(a));
    let result = w.open_recent(
        0,
        |p: &String| Err(FileError::from_io(p, "canonicalize", IoErrorKind::PermissionDenied)),
        |_: &String| Ok((String::new(), DiskVersion::default())),
        |p: &String| Some(p.clone()),
        &no_store,
    );
    assert!(matches!(result, Err(LifecycleError::File(FileError::PermissionDenied { .. }))));
    assert_eq!(w.state().recent_files.paths(), &[String::from("/n/a.md")]);
}

#[test]
fn a_failed_cleanup_write_travels_with_the_missing_file() {
    let mut recent = RecentFiles::load_from_path(String::from("/t/recent.json"), 20, ConfigRead::Missing).unwrap();
    recent.record_success(String::from("/t/a.md"), Some(String::from("/t/a.md")), no_store).unwrap();
    let mut w = Workbench::new(Language::English, recent, None, None);
    let failing = |config: &String, _: &Vec<String>| -> Result<(), RecentFilesError> {
        Err(RecentFilesError::Write { path: config.clone() })
    };
    let result = w.open_recent(
        0,
        |p: &String| Err(FileError::from_io(p, "canonicalize", IoErrorKind::NotFound)),
        |_: &String| Ok((String::new(), DiskVersion::default())),
        |p: &String| Some(p.clone()),
        &failing,
    );
    assert!(matches!(result, Err(LifecycleError::MissingRecentFile { ref path, cleanup_error: Some(RecentFilesError::Write { .. }) })
        if path == "/t/a.md"));
    assert!(w.state().recent_files.paths().is_empty());
    let opened = w.open_file(
        String::from("/t/b.md"),
        |p: &String| Ok(p.clone()),
        |_: &String| Ok((String::new(), DiskVersion::default())),
        failing,
    );
    assert!(opened.is_ok());
    assert_eq!(
        w.notification().unwrap().message,
        RecentFilesError::Write { path: String::from("/t/recent.json") }.message()
    );
}

#[test]
fn a_failed_save_when_switching_away_is_reported_and_the_switch_happens() {
    let mut w = workbench();
    let a = open(&mut w, "/n/a.md", "# A").unwrap();
    let b = open(&mut w, "/n/b.md", "# B").unwrap();
    assert!(w.switch_tab(a, String::from("# B"), ok_writer));
    w.editor_changed(a, "# A2");
    let failing = |p: &String, _: &String| -> Result<DiskVersion, FileError> { Err(FileError::other(p, "write")) };
    assert!(w.switch_tab(b, String::from("# A2"), failing));
    assert_eq!(w.state().active_tab, Some(b));
    assert!(w.state().tabs[0].dirty);
    let expected = LifecycleError::File(FileError::other("/n/a.md", "write")).localized_message(Language::English);
    assert_eq!(w.notification().unwrap().message, expected);
}
