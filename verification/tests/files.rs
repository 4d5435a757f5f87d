use std::path::PathBuf;

use mieli::autosave::{AutosaveKey, autosave_is_current};
use mieli::config::recent::{ConfigRead, RecentEntry, RecentFiles, RecentFilesError};
use mieli::config::recent_files_path_in_dir;
use mieli::file::io::is_markdown_file;
use mieli::pathname::{relative_components, starts_with};
use mieli::file::links::path_from_file_url;
use mieli::file::watcher::{
    FileSystemEvent, WatchError, WatchEventKind, WatchMode, WatchPlan, WatchRegistry,
    check_watch_directory, file_parent_directory, translate_event, translate_notify_error,
};
use mieli::app::lifecycle::LifecycleError;
use mieli::file::IoErrorKind;
use mieli::state::TabId;

fn path(value: &str) -> String {
    String::from(value)
}

fn no_store(_: &String, _: &Vec<String>) -> Result<(), RecentFilesError> {
    Ok(())
}

#[test]
fn markdown_extension_is_case_insensitive() {
    assert!(is_markdown_file("README.md"));
    assert!(is_markdown_file("README.MD"));
    assert!(is_markdown_file("note.markdown"));
    assert!(is_markdown_file("note.MARKDOWN"));
    assert!(!is_markdown_file("test.txt"));
    assert!(!is_markdown_file("image.png"));
}

#[test]
fn hidden_files_and_bare_extensions_are_not_markdown() {
    assert!(!is_markdown_file(".md"));
    assert!(!is_markdown_file("docs/"));
    assert!(is_markdown_file("docs/.hidden.md"));
}

#[test]
fn file_urls_are_decoded_into_paths() {
    assert_eq!(
        path_from_file_url("file:///tmp/Mieli%20Notes.md"),
        Some(String::from("/tmp/Mieli Notes.md"))
    );
}

#[test]
fn non_file_urls_are_ignored() {
    assert!(path_from_file_url("https://example.com/notes.md").is_none());
    assert!(path_from_file_url("not a url").is_none());
}

#[test]
fn stale_generation_cannot_save_a_newer_edit() {
    let key = AutosaveKey { tab_id: TabId(7), generation: 2, path: path("A.md") };

    assert!(autosave_is_current(&key, TabId(7), 2, "A.md", true));
    assert!(!autosave_is_current(&key, TabId(7), 1, "A.md", true));
    assert!(!autosave_is_current(&key, TabId(7), 2, "B.md", true));
    assert!(!autosave_is_current(&key, TabId(7), 2, "A.md", false));
}

#[test]
fn autosave_key_rejects_stale_tab_identity() {
    let key = AutosaveKey { tab_id: TabId(7), generation: 2, path: path("A.md") };

    assert!(!autosave_is_current(&key, TabId(8), 2, "A.md", true));
}

#[test]
fn successful_open_moves_existing_path_to_front_without_duplicates() {
    let mut recent = RecentFiles::in_memory(2);
    recent.record_success(path("A.md"), None, no_store).unwrap();
    recent.record_success(path("B.md"), None, no_store).unwrap();
    recent.record_success(path("A.md"), None, no_store).unwrap();

    assert_eq!(recent.paths(), &[path("A.md"), path("B.md")]);
}

#[test]
fn recent_files_reject_non_markdown_paths() {
    let mut recent = RecentFiles::in_memory(20);

    let error = recent.record_success(path("notes.txt"), None, no_store).unwrap_err();

    assert!(matches!(error, RecentFilesError::NotMarkdown { path } if path == "notes.txt"));
    assert!(recent.paths().is_empty());
}

#[test]
fn capacity_is_twenty_and_remove_drops_missing_entries() {
    let mut recent = RecentFiles::in_memory(20);

    for index in 0..21 {
        recent.record_success(format!("{index}.md"), None, no_store).unwrap();
    }

    assert_eq!(recent.paths().len(), 20);

    recent.remove("10.md", None, no_store).unwrap();

    assert!(!recent.paths().contains(&path("10.md")));
}

#[test]
fn capacity_is_cut_to_twenty() {
    let mut recent = RecentFiles::in_memory(50);
    for index in 0..30 {
        recent.record_success(format!("{index}.md"), None, no_store).unwrap();
    }
    assert_eq!(recent.paths().len(), 20);
    assert_eq!(recent.paths()[0], "29.md");
}

#[test]
fn load_returns_empty_recent_files_when_config_is_missing() {
    let recent = RecentFiles::load_from_path(path("/cfg/recent.json"), 20, ConfigRead::Missing).unwrap();

    assert!(recent.paths().is_empty());
}

#[test]
fn loading_recent_paths_canonicalizes_and_deduplicates_config_entries() {
    let entries = vec![
        RecentEntry { path: path("/t/nested/../note.md"), canonical: Some(path("/t/note.md")) },
        RecentEntry { path: path("/t/note.md"), canonical: Some(path("/t/note.md")) },
        RecentEntry { path: path("/t/stale.md"), canonical: None },
        RecentEntry { path: path("/t/ignored.txt"), canonical: None },
    ];
    let loaded = RecentFiles::load_from_path(path("/t/recent.json"), 20, ConfigRead::Entries(entries)).unwrap();

    assert_eq!(loaded.paths(), &[path("/t/note.md"), path("/t/stale.md")]);
}

#[test]
fn save_and_load_round_trip_recent_paths() {
    let mut recent = RecentFiles::load_from_path(path("/t/recent.json"), 20, ConfigRead::Missing).unwrap();
    recent.record_success(path("/t/first.md"), Some(path("/t/first.md")), no_store).unwrap();
    recent.record_success(path("/t/second.md"), Some(path("/t/second.md")), no_store).unwrap();

    let stored = recent
        .paths()
        .iter()
        .map(|stored| RecentEntry { path: stored.clone(), canonical: Some(stored.clone()) })
        .collect::<Vec<_>>();
    let loaded = RecentFiles::load_from_path(path("/t/recent.json"), 20, ConfigRead::Entries(stored)).unwrap();

    assert_eq!(loaded.paths(), &[path("/t/second.md"), path("/t/first.md")]);
    assert_eq!(loaded.config_path(), Some(&path("/t/recent.json")));
}

#[test]
fn remove_drops_deleted_production_path() {
    let mut recent = RecentFiles::load_from_path(path("/t/recent.json"), 20, ConfigRead::Missing).unwrap();
    recent.record_success(path("/t/stale.md"), Some(path("/t/stale.md")), no_store).unwrap();

    recent.remove("/t/stale.md", Some(path("/t/stale.md")), no_store).unwrap();

    assert!(!recent.paths().contains(&path("/t/stale.md")));
    let stored = recent
        .paths()
        .iter()
        .map(|stored| RecentEntry { path: stored.clone(), canonical: Some(stored.clone()) })
        .collect::<Vec<_>>();
    let loaded = RecentFiles::load_from_path(path("/t/recent.json"), 20, ConfigRead::Entries(stored)).unwrap();
    assert!(loaded.paths().is_empty());
}

#[test]
fn canonicalizing_lists_remove_by_resolved_path() {
    let mut recent = RecentFiles::load_from_path(path("/t/recent.json"), 20, ConfigRead::Missing).unwrap();
    recent.record_success(path("/t/./a.md"), Some(path("/t/a.md")), no_store).unwrap();
    assert_eq!(recent.paths(), &[path("/t/a.md")]);
    assert!(matches!(
        recent.remove("/t/a.md", None, no_store),
        Err(RecentFilesError::Canonicalize { .. })
    ));
    recent.remove("/t/./a.md", Some(path("/t/a.md")), no_store).unwrap();
    assert!(recent.paths().is_empty());
}

#[test]
fn malformed_config_returns_empty_recent_files_and_an_error_through_injected_loader() {
    let (recent, error) =
        RecentFiles::load_from_path_with_notification(path("/t/recent.json"), 20, ConfigRead::Malformed);

    assert!(recent.paths().is_empty());
    assert!(error.is_some());
}

#[test]
fn recent_files_config_lives_in_the_config_directory() {
    assert_eq!(recent_files_path_in_dir("/home/u/.config/mieli"), "/home/u/.config/mieli/recent-files.json");
}

#[test]
fn notify_events_are_reduced_to_changed_created_removed_or_error() {
    assert_eq!(translate_event(WatchEventKind::Modify, path("A.md")), FileSystemEvent::Changed(path("A.md")));
    assert_eq!(translate_event(WatchEventKind::Create, path("A.md")), FileSystemEvent::Created(path("A.md")));
    assert_eq!(translate_event(WatchEventKind::Remove, path("A.md")), FileSystemEvent::Removed(path("A.md")));
}

#[test]
fn notify_errors_keep_paths_and_message_for_callbacks() {
    let error = notify::Error::generic("watch failed").add_path(PathBuf::from("A.md"));
    let paths = error.paths.iter().map(|p| p.display().to_string()).collect();

    assert_eq!(
        translate_notify_error(error.to_string(), paths),
        vec![FileSystemEvent::Error {
            path: Some(path("A.md")),
            message: "watch failed about [\"A.md\"]".to_string(),
        }]
    );
}

#[test]
fn notify_errors_without_paths_give_one_event() {
    assert_eq!(
        translate_notify_error(String::from("boom"), Vec::new()),
        vec![FileSystemEvent::Error { path: None, message: String::from("boom") }]
    );
}

#[test]
fn unknown_notify_kinds_are_reduced_to_error_events() {
    assert_eq!(
        translate_event(WatchEventKind::Any, path("A.md")),
        FileSystemEvent::Error {
            path: Some(path("A.md")),
            message: "Unsupported filesystem event kind: Any".to_string(),
        }
    );
    assert_eq!(
        translate_event(WatchEventKind::Other, path("B.md")),
        FileSystemEvent::Error {
            path: Some(path("B.md")),
            message: "Unsupported filesystem event kind: Other".to_string(),
        }
    );
    assert_eq!(
        translate_event(WatchEventKind::Access { debug: String::from("Access(Any)") }, path("C.md")),
        FileSystemEvent::Error {
            path: Some(path("C.md")),
            message: "Unsupported filesystem event kind: Access(Any)".to_string(),
        }
    );
}

#[test]
fn file_parent_watches_are_non_recursive_and_reject_home_root() {
    assert_eq!(file_parent_directory("note.md").unwrap(), ".");
    let parent = file_parent_directory("/tmp/folder/note.md").unwrap();
    assert_eq!(parent, "/tmp/folder");
    let mut registry = WatchRegistry::new();
    assert_eq!(registry.plan(&parent, WatchMode::NonRecursive), WatchPlan::Watch);
    registry.record(parent.clone(), WatchMode::NonRecursive);
    assert_eq!(registry.mode(&parent), Some(WatchMode::NonRecursive));
    assert!(matches!(
        file_parent_directory("/"),
        Err(WatchError::MissingParent { .. })
    ));
    assert!(matches!(
        check_watch_directory(path("/home/u"), Some(path("/home/u"))),
        Err(WatchError::HomeDirectoryRoot { path }) if path == "/home/u"
    ));
    assert_eq!(check_watch_directory(path("/home/u/w"), Some(path("/home/u"))).unwrap(), "/home/u/w");
}

#[test]
fn watcher_paths_are_canonicalized_and_deduplicated() {
    let mut registry = WatchRegistry::new();
    let canonical = check_watch_directory(path("/tmp/workspace"), Some(path("/home/u"))).unwrap();
    assert_eq!(registry.plan(&canonical, WatchMode::Recursive), WatchPlan::Watch);
    registry.record(canonical.clone(), WatchMode::Recursive);
    let again = check_watch_directory(path("/tmp/workspace"), Some(path("/home/u"))).unwrap();
    assert_eq!(registry.plan(&again, WatchMode::Recursive), WatchPlan::Keep);
    assert_eq!(registry.mode(&canonical), Some(WatchMode::Recursive));
}

#[test]
fn recursive_watch_upgrades_an_existing_non_recursive_watch() {
    let mut registry = WatchRegistry::new();
    let dir = path("/w");
    assert_eq!(registry.plan(&dir, WatchMode::NonRecursive), WatchPlan::Watch);
    registry.record(dir.clone(), WatchMode::NonRecursive);
    assert_eq!(registry.plan(&dir, WatchMode::NonRecursive), WatchPlan::Keep);
    assert_eq!(registry.plan(&dir, WatchMode::Recursive), WatchPlan::Upgrade);
    registry.record(dir.clone(), WatchMode::Recursive);
    assert_eq!(registry.mode(&dir), Some(WatchMode::Recursive));
    assert_eq!(registry.plan(&dir, WatchMode::NonRecursive), WatchPlan::Keep);
}

#[test]
fn recent_files_and_watch_errors_name_what_failed() {
    assert_eq!(
        RecentFilesError::CreateDir { path: path("/cfg") }.message(),
        "Could not create the Recent Files configuration directory at /cfg."
    );
    assert_eq!(
        RecentFilesError::Write { path: path("/cfg/recent.json") }.message(),
        "Could not write the Recent Files configuration at /cfg/recent.json."
    );
    assert_eq!(
        RecentFilesError::Serialize { path: path("/cfg/recent.json") }.message(),
        "Could not serialize the Recent Files configuration for /cfg/recent.json."
    );
    assert_eq!(
        RecentFilesError::ConfigUnavailable.message(),
        "Could not resolve the Recent Files configuration directory."
    );
    assert_eq!(
        WatchError::Io { path: path("/w"), operation: "canonicalize", kind: IoErrorKind::NotFound }.message(),
        "Could not canonicalize /w: entity not found."
    );
    assert_eq!(
        WatchError::Notify { path: path("/w"), operation: "watch", message: String::from("too many watches") }.message(),
        "Could not watch /w: too many watches."
    );
    let watch = LifecycleError::Watch(WatchError::HomeDirectoryRoot { path: path("/home/u") });
    assert_eq!(watch.message(), "Could not watch /home/u: refusing to watch the home directory root.");
}

#[test]
fn a_failed_write_is_returned_and_the_list_still_changes() {
    let failing = |config: &String, _: &Vec<String>| -> Result<(), RecentFilesError> {
        Err(RecentFilesError::Write { path: config.clone() })
    };
    let mut recent = RecentFiles::load_from_path(path("/t/recent.json"), 20, ConfigRead::Missing).unwrap();
    assert_eq!(
        recent.record_success(path("/t/a.md"), Some(path("/t/a.md")), failing),
        Err(RecentFilesError::Write { path: path("/t/recent.json") })
    );
    assert_eq!(recent.paths(), &[path("/t/a.md")]);
    let written = |config: &String, paths: &Vec<String>| -> Result<(), RecentFilesError> {
        assert_eq!(config, "/t/recent.json");
        assert!(paths.is_empty());
        Ok(())
    };
    recent.remove("/t/a.md", Some(path("/t/a.md")), written).unwrap();
    assert!(recent.paths().is_empty());

    let mut memory = RecentFiles::in_memory(20);
    memory.record_success(path("a.md"), None, failing).unwrap();
    assert_eq!(memory.paths(), &[path("a.md")]);
}

#[test]
fn trailing_separators_and_dot_components_are_ignored_like_std_paths() {
    assert!(is_markdown_file("notes.md/."));
    assert!(is_markdown_file("/n/notes.md/"));
    assert!(!is_markdown_file("/n/."));
    assert_eq!(mieli::pathname::file_name("a/b/"), Some(String::from("b")));
    assert_eq!(mieli::pathname::file_name("./a.md"), Some(String::from("a.md")));
    assert_eq!(mieli::pathname::file_name("/"), None);
    assert_eq!(mieli::pathname::parent("a/b/."), Some(String::from("a")));
    assert_eq!(mieli::pathname::parent("a/./b"), Some(String::from("a")));
    assert_eq!(mieli::pathname::parent("/a/"), Some(String::from("/")));
    assert_eq!(mieli::pathname::parent("/."), None);
    assert_eq!(mieli::pathname::parent("a"), Some(String::new()));
}

#[test]
fn lists_read_back_from_markdown_entries_hold_only_markdown() {
    let entries = vec![
        RecentEntry { path: path("/t/a.md"), canonical: Some(path("/t/real/a.md")) },
        RecentEntry { path: path("/t/b.txt"), canonical: Some(path("/t/b.txt")) },
        RecentEntry { path: path("/t/c.markdown"), canonical: None },
    ];
    let mut loaded = RecentFiles::load_from_path(path("/t/recent.json"), 20, ConfigRead::Entries(entries)).unwrap();
    assert_eq!(loaded.paths(), &[path("/t/real/a.md"), path("/t/c.markdown")]);
    loaded.record_success(path("/t/d.md"), Some(path("/t/d.md")), no_store).unwrap();
    loaded.remove("/t/c.markdown", Some(path("/t/c.markdown")), no_store).unwrap();
    assert!(loaded.paths().iter().all(|p| is_markdown_file(p)));
}

#[test]
fn only_file_urls_are_accepted_to_open() {
    assert!(mieli::file::links::is_file_url("file:///tmp/a.md"));
    assert!(!mieli::file::links::is_file_url("https://example.com/a.md"));
    assert!(!mieli::file::links::is_file_url("not a url"));
}

#[test]
fn path_prefixes_are_compared_by_component() {
    assert!(starts_with("/a//b", "/a/b"));
    assert!(starts_with("/a", "/a/"));
    assert!(starts_with("/a/./b/c.md", "/a/b"));
    assert!(!starts_with("/ab", "/a"));
    assert!(!starts_with("/a", "a"));
    assert!(starts_with("a", ""));
    assert_eq!(
        relative_components("/w//docs/./a.md", "/w/"),
        Some(vec![String::from("docs"), String::from("a.md")])
    );
    assert_eq!(relative_components("/x/a.md", "/w"), None);
}
