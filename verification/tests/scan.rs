use mieli::app::scan::{
    MAX_SCAN_PATHS_PER_POLL, RefreshQueue, SCAN_BATCH_SIZE, ScanBatcher, ScanMessage, ScanReceipt, WorkspaceScan,
};
use mieli::app::workbench::Workbench;
use mieli::config::recent::RecentFiles;
use mieli::file::scanner::{ScanWalk, scan_failure};
use mieli::file::{FileError, IoErrorKind};
use mieli::i18n::Language;

fn paths(names: &[&str]) -> Vec<String> {
    names.iter().map(|name| name.to_string()).collect()
}

fn batch(generation: u64, names: &[&str]) -> ScanReceipt {
    ScanReceipt::Message(ScanMessage::Batch { generation, paths: paths(names) })
}

#[test]
fn scan_keeps_only_messages_of_its_own_generation() {
    let mut scan = WorkspaceScan::new(String::from("/w"), 2, Vec::new());
    assert!(scan.receive(batch(1, &["/w/old.md"])));
    assert!(scan.receive(batch(2, &["/w/a.md", "/w/b.md"])));
    assert!(scan.receive(batch(2, &["/w/c.md"])));
    assert!(scan.receive(ScanReceipt::Message(ScanMessage::Finished { generation: 1, result: Ok(()) })));
    assert!(scan.finished.is_none());
    assert_eq!(
        scan.pending_paths.iter().cloned().collect::<Vec<_>>(),
        paths(&["/w/a.md", "/w/b.md", "/w/c.md"])
    );
    assert!(!scan.receive(ScanReceipt::Empty));
}

#[test]
fn scan_whose_worker_vanished_fails_without_losing_its_result() {
    let mut scan = WorkspaceScan::new(String::from("/w"), 1, Vec::new());
    assert!(!scan.receive(ScanReceipt::Disconnected));
    assert!(matches!(
        &scan.finished,
        Some(Err(FileError::Io { path, operation: "scan", kind: IoErrorKind::Other })) if path == "/w"
    ));

    let mut finished = WorkspaceScan::new(String::from("/w"), 1, Vec::new());
    assert!(finished.receive(ScanReceipt::Message(ScanMessage::Finished { generation: 1, result: Ok(()) })));
    assert!(!finished.receive(ScanReceipt::Disconnected));
    assert!(matches!(finished.finished, Some(Ok(()))));
}

#[test]
fn scan_hands_out_at_most_one_poll_of_paths_at_a_time() {
    let mut scan = WorkspaceScan::new(String::from("/w"), 1, Vec::new());
    let many = (0..300).map(|index| format!("/w/{index}.md")).collect::<Vec<_>>();
    assert!(scan.receive(ScanReceipt::Message(ScanMessage::Batch { generation: 1, paths: many.clone() })));
    assert!(!scan.wants_more());
    assert!(scan.receive(ScanReceipt::Message(ScanMessage::Finished { generation: 1, result: Ok(()) })));

    assert!(scan.take_completion().is_none());
    let first = scan.take_batch();
    assert_eq!(first.len(), MAX_SCAN_PATHS_PER_POLL);
    assert_eq!(first[0], "/w/0.md");
    assert!(scan.wants_more());
    let second = scan.take_batch();
    assert_eq!(second, many[MAX_SCAN_PATHS_PER_POLL..].to_vec());
    assert!(matches!(scan.take_completion(), Some(Ok(()))));
    assert!(scan.take_completion().is_none());
}

#[test]
fn polling_a_scan_fills_the_tree_then_reports_its_failure() {
    let mut w = Workbench::new(Language::English, RecentFiles::in_memory(20), None, None);
    let expansion = w.begin_workspace(String::from("/w"));
    w.receive_scanned_paths("/w", paths(&["/w/old.md"]), &expansion, true);
    let mut scan = WorkspaceScan::new(String::from("/w"), 1, expansion);

    let idle = w.poll_scan(&mut scan);
    assert!(!idle.changed);
    assert!(idle.outcome.is_none());
    assert_eq!(w.state().file_tree[0].name, "old.md");

    assert!(scan.receive(batch(1, &["/w/new.md", "/w/notes.txt"])));
    let filled = w.poll_scan(&mut scan);
    assert!(filled.changed);
    assert!(filled.outcome.is_none());
    assert!(!scan.showing_previous_tree);
    assert_eq!(w.state().file_tree.len(), 1);
    assert_eq!(w.state().file_tree[0].name, "new.md");

    let failure = FileError::from_io("/w", "scan", IoErrorKind::PermissionDenied);
    assert!(scan.receive(ScanReceipt::Message(ScanMessage::Finished { generation: 1, result: Err(failure.clone()) })));
    let done = w.poll_scan(&mut scan);
    assert!(done.changed);
    assert_eq!(done.outcome, Some(Err(failure.clone())));
    assert_eq!(w.notification().map(|n| n.message.clone()), Some(failure.message()));
    assert_eq!(w.state().file_tree.len(), 1);
}

#[test]
fn a_scan_that_finds_nothing_drops_the_previous_tree() {
    let mut w = Workbench::new(Language::English, RecentFiles::in_memory(20), None, None);
    let expansion = w.begin_workspace(String::from("/w"));
    w.receive_scanned_paths("/w", paths(&["/w/old.md"]), &expansion, true);
    let mut scan = WorkspaceScan::new(String::from("/w"), 1, expansion);
    assert!(scan.receive(ScanReceipt::Message(ScanMessage::Finished { generation: 1, result: Ok(()) })));

    let done = w.poll_scan(&mut scan);
    assert!(done.changed);
    assert_eq!(done.outcome, Some(Ok(())));
    assert!(w.state().file_tree.is_empty());
    assert!(w.notification().is_none());
}

#[test]
fn the_worker_sends_full_batches_then_the_rest() {
    let mut batcher = ScanBatcher::new();
    let mut sent = Vec::new();
    for index in 0..(SCAN_BATCH_SIZE * 2 + 3) {
        if let Some(batch) = batcher.push(format!("/w/{index}.md")) {
            assert_eq!(batch.len(), SCAN_BATCH_SIZE);
            sent.push(batch);
        }
    }
    assert_eq!(sent.len(), 2);
    assert_eq!(sent[1][0], format!("/w/{SCAN_BATCH_SIZE}.md"));
    let rest = batcher.finish().unwrap();
    assert_eq!(rest, paths(&["/w/128.md", "/w/129.md", "/w/130.md"]));
    assert!(ScanBatcher::new().finish().is_none());
}

#[test]
fn the_scan_walk_lists_directories_in_turn_and_hands_out_markdown_files() {
    let mut walk = ScanWalk::new(String::from("/w"));
    assert_eq!(walk.next_directory(), Some(String::from("/w")));
    assert_eq!(walk.visit_entry(String::from("/w/docs"), true, false), None);
    assert_eq!(walk.visit_entry(String::from("/w/a.md"), false, true), Some(String::from("/w/a.md")));
    assert_eq!(walk.visit_entry(String::from("/w/b.txt"), false, true), None);
    assert_eq!(walk.visit_entry(String::from("/w/link.md"), false, false), None);
    assert_eq!(walk.visit_entry(String::from("/w/assets"), true, false), None);
    assert_eq!(walk.next_directory(), Some(String::from("/w/docs")));
    assert_eq!(walk.next_directory(), Some(String::from("/w/assets")));
    assert_eq!(walk.next_directory(), None);
}

#[test]
fn only_vanished_subdirectories_and_entries_are_skipped() {
    let walk = ScanWalk::new(String::from("/w"));
    assert_eq!(walk.listing_failed("/w/docs", IoErrorKind::NotFound), None);
    assert_eq!(
        walk.listing_failed("/w", IoErrorKind::NotFound),
        Some(FileError::NotFound { path: String::from("/w"), operation: "scan" })
    );
    assert_eq!(
        walk.listing_failed("/w/docs", IoErrorKind::PermissionDenied),
        Some(FileError::PermissionDenied { path: String::from("/w/docs"), operation: "scan" })
    );
    assert_eq!(scan_failure("/w/gone.md", true, IoErrorKind::NotFound), None);
    assert_eq!(
        scan_failure("/w/x", true, IoErrorKind::Other),
        Some(FileError::Io { path: String::from("/w/x"), operation: "scan", kind: IoErrorKind::Other })
    );
}

#[test]
fn refreshes_asked_for_during_a_scan_are_folded_into_one() {
    let mut queue = RefreshQueue::new();
    assert!(queue.request(true, false));
    assert!(!queue.pending());
    assert!(!queue.request(true, true));
    assert!(!queue.request(true, true));
    assert!(queue.pending());
    assert!(queue.scan_ended());
    assert!(!queue.pending());
    assert!(!queue.scan_ended());
    assert!(!queue.request(true, true));
    assert!(queue.request(false, true));
    assert!(!queue.pending());
    assert!(!queue.request(true, true));
    queue.clear();
    assert!(!queue.scan_ended());
}
