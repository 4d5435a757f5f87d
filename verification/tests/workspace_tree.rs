use mieli::file::{FileError, IoErrorKind};
use mieli::i18n::Language;
use mieli::ui::root::{EmptyAction, EmptyHint, empty_state};
use mieli::file::scanner::scan_markdown_tree;
use mieli::state::FileTreeNode;
use mieli::ui::file_tree::{
    capture_expansion, insert_markdown_paths, lookup_expansion, preserve_expansion, sort_nodes,
    toggle_expansion, visible_rows,
};

fn path(value: &str) -> String {
    String::from(value)
}

fn sample_tree(docs_expanded: bool) -> Vec<FileTreeNode> {
    vec![
        FileTreeNode {
            path: path("docs"),
            name: String::from("docs/"),
            is_dir: true,
            expanded: docs_expanded,
            children: vec![FileTreeNode {
                path: path("docs/api.md"),
                name: String::from("api.md"),
                is_dir: false,
                expanded: true,
                children: Vec::new(),
            }],
        },
        FileTreeNode {
            path: path("README.md"),
            name: String::from("README.md"),
            is_dir: false,
            expanded: true,
            children: Vec::new(),
        },
    ]
}

fn test_node(path: &str, name: &str, is_dir: bool) -> FileTreeNode {
    FileTreeNode {
        path: String::from(path),
        name: String::from(name),
        is_dir,
        expanded: true,
        children: Vec::new(),
    }
}

fn names(nodes: &[FileTreeNode]) -> Vec<&str> {
    nodes.iter().map(|node| node.name.as_str()).collect()
}

#[test]
fn active_path_is_selected_and_collapsed_children_are_hidden() {
    let tree = sample_tree(true);
    let active_path = path("docs/api.md");

    assert!(visible_rows(&tree, Some(active_path.as_str()))
        .iter()
        .any(|row| row.path == path("docs/api.md") && row.selected));
    assert!(!visible_rows(&sample_tree(false), Some(active_path.as_str()))
        .iter()
        .any(|row| row.path == path("docs/api.md")));
}

#[test]
fn visible_rows_follow_the_tree_in_order_with_depths() {
    let rows = visible_rows(&sample_tree(true), None);
    let summary: Vec<(&str, usize, bool)> =
        rows.iter().map(|row| (row.name.as_str(), row.depth, row.selected)).collect();
    assert_eq!(summary, vec![("docs/", 0, false), ("api.md", 1, false), ("README.md", 0, false)]);
}

#[test]
fn refreshed_tree_preserves_directory_expansion_by_path() {
    let previous = sample_tree(false);
    let mut refreshed = sample_tree(true);

    preserve_expansion(&previous, &mut refreshed);

    assert!(!refreshed[0].expanded);
}

#[test]
fn toggling_expansion_updates_only_the_matching_directory() {
    let mut tree = sample_tree(false);

    assert!(toggle_expansion(&mut tree, &path("docs")));
    assert!(tree[0].expanded);
    assert!(tree[1].expanded);
}

#[test]
fn toggling_twice_restores_the_tree() {
    let mut tree = sample_tree(false);
    assert!(toggle_expansion(&mut tree, "docs"));
    assert!(toggle_expansion(&mut tree, "docs"));
    assert_eq!(tree, sample_tree(false));
    assert!(!toggle_expansion(&mut tree, "README.md"));
    assert_eq!(tree, sample_tree(false));
}

#[test]
fn inserting_markdown_paths_builds_sorted_unique_ancestors_and_preserves_expansion() {
    let root = path("/workspace");
    let previous = vec![FileTreeNode {
        path: path("/workspace/docs"),
        name: String::from("docs/"),
        is_dir: true,
        expanded: false,
        children: Vec::new(),
    }];
    let expansion = capture_expansion(&previous);
    let mut tree = Vec::new();

    insert_markdown_paths(
        &mut tree,
        &root,
        vec![
            path("/workspace/z.md"),
            path("/workspace/docs/b.md"),
            path("/workspace/docs/a.md"),
            path("/workspace/docs/a.md"),
            path("/workspace/Alpha/reference.md"),
            path("/workspace/assets/image.png"),
        ],
        &expansion,
    );

    assert_eq!(names(&tree), vec!["Alpha/", "docs/", "z.md"]);
    assert!(!tree[1].expanded);
    assert_eq!(names(&tree[1].children), vec!["a.md", "b.md"]);
    assert_eq!(tree[1].children.len(), 2);
}

#[test]
fn deeply_nested_tree_operations_remain_iterative() {
    let root = path("/workspace");
    let mut file = root.clone();
    let mut collapsed = root.clone();
    for index in 0..1024 {
        let component = format!("level-{index}");
        file.push('/');
        file.push_str(&component);
        if index <= 512 {
            collapsed.push('/');
            collapsed.push_str(&component);
        }
    }
    file.push_str("/deep.md");

    let mut tree = Vec::new();
    insert_markdown_paths(&mut tree, &root, vec![file.clone()], &Vec::new());

    assert_eq!(visible_rows(&tree, None).len(), 1025);
    assert_eq!(capture_expansion(&tree).len(), 1024);
    assert!(toggle_expansion(&mut tree, &collapsed));

    let mut refreshed = Vec::new();
    insert_markdown_paths(&mut refreshed, &root, vec![file], &Vec::new());
    preserve_expansion(&tree, &mut refreshed);
    assert_eq!(lookup_expansion(&capture_expansion(&refreshed), &collapsed), Some(false));
}

#[test]
fn scanner_uses_full_path_to_break_equal_lowercase_name_collisions() {
    let mut nodes = vec![
        test_node("/tmp/alpha", "alpha/", true),
        test_node("/tmp/ALPHA", "ALPHA/", true),
        test_node("/tmp/beta.MD", "beta.MD", false),
        test_node("/tmp/Beta.md", "Beta.md", false),
    ];

    sort_nodes(&mut nodes);

    assert_eq!(names(&nodes), vec!["ALPHA/", "alpha/", "Beta.md", "beta.MD"]);
    assert_eq!(
        nodes.iter().map(|node| node.path.clone()).collect::<Vec<_>>(),
        vec![
            String::from("/tmp/ALPHA"),
            String::from("/tmp/alpha"),
            String::from("/tmp/Beta.md"),
            String::from("/tmp/beta.MD"),
        ]
    );
}

#[test]
fn scanner_keeps_only_directories_with_markdown_descendants() {
    let tree = scan_markdown_tree(
        "/root",
        vec![
            path("/root/README.md"),
            path("/root/test.txt"),
            path("/root/docs/api.md"),
            path("/root/docs/image.png"),
            path("/root/assets/image.png"),
        ],
    );
    assert_eq!(names(&tree), vec!["docs/", "README.md"]);
    assert_eq!(names(&tree[0].children), vec!["api.md"]);
    assert!(tree[0].expanded);
}

#[test]
fn scanner_sorts_directories_before_files_and_uses_case_insensitive_names() {
    let tree = scan_markdown_tree(
        "/root",
        vec![
            path("/root/zeta.md"),
            path("/root/Beta.md"),
            path("/root/guide/intro.md"),
            path("/root/Alpha/reference.md"),
        ],
    );
    assert_eq!(names(&tree), vec!["Alpha/", "guide/", "Beta.md", "zeta.md"]);
    assert!(tree.iter().all(|node| node.expanded));
}

#[test]
fn empty_editor_area_names_what_the_workspace_holds() {
    let loading = empty_state(Language::English, true, None, true, true);
    assert_eq!(loading, (EmptyHint::LoadingWorkspace, None));

    let failure = FileError::from_io("/w", "scan", IoErrorKind::PermissionDenied);
    let failed = empty_state(Language::English, false, Some(&failure), true, true);
    assert_eq!(failed, (EmptyHint::ScanFailed(failure.message()), Some(EmptyAction::NewDocument)));

    assert_eq!(
        empty_state(Language::English, false, None, true, true),
        (EmptyHint::NoMarkdownFiles, Some(EmptyAction::NewDocument))
    );
    assert_eq!(
        empty_state(Language::English, false, None, true, false),
        (EmptyHint::NoDocumentSelected, Some(EmptyAction::NewDocument))
    );
    assert_eq!(
        empty_state(Language::Chinese, false, None, false, true),
        (EmptyHint::Welcome, Some(EmptyAction::Open))
    );
}

#[test]
fn a_directory_path_met_twice_keeps_the_expansion_seen_last() {
    let previous = vec![FileTreeNode {
        path: path("x"),
        name: String::from("x/"),
        is_dir: true,
        expanded: false,
        children: vec![FileTreeNode {
            path: path("x"),
            name: String::from("x/"),
            is_dir: true,
            expanded: true,
            children: Vec::new(),
        }],
    }];
    assert_eq!(lookup_expansion(&capture_expansion(&previous), &path("x")), Some(true));
    let mut refreshed = vec![FileTreeNode {
        path: path("x"),
        name: String::from("x/"),
        is_dir: true,
        expanded: false,
        children: Vec::new(),
    }];
    preserve_expansion(&previous, &mut refreshed);
    assert!(refreshed[0].expanded);
}

#[test]
fn sorting_reorders_each_level_and_keeps_children_under_their_parent() {
    let mut nodes = vec![
        test_node("/t/b.md", "b.md", false),
        FileTreeNode {
            path: path("/t/z"),
            name: String::from("z/"),
            is_dir: true,
            expanded: true,
            children: vec![test_node("/t/z/y.md", "y.md", false), test_node("/t/z/A.md", "A.md", false)],
        },
        test_node("/t/a", "a/", true),
    ];
    sort_nodes(&mut nodes);
    let names: Vec<&str> = nodes.iter().map(|n| n.name.as_str()).collect();
    assert_eq!(names, vec!["a/", "z/", "b.md"]);
    let children: Vec<&str> = nodes[1].children.iter().map(|n| n.name.as_str()).collect();
    assert_eq!(children, vec!["A.md", "y.md"]);
    assert!(nodes[0].children.is_empty());
}

#[test]
fn toggling_a_repeated_directory_looks_at_the_whole_level_first() {
    let dir = |p: &str, children: Vec<FileTreeNode>| FileTreeNode {
        path: path(p),
        name: format!("{p}/"),
        is_dir: true,
        expanded: true,
        children,
    };
    let mut nodes = vec![dir("a", vec![dir("x", Vec::new())]), dir("x", Vec::new())];
    assert!(toggle_expansion(&mut nodes, "x"));
    assert!(!nodes[1].expanded);
    assert!(nodes[0].children[0].expanded);

    let mut nodes = vec![dir("a", vec![dir("y", Vec::new())]), dir("b", vec![dir("y", Vec::new())])];
    assert!(toggle_expansion(&mut nodes, "y"));
    assert!(nodes[0].children[0].expanded);
    assert!(!nodes[1].children[0].expanded);
    assert!(toggle_expansion(&mut nodes, "y"));
    assert!(nodes[1].children[0].expanded);
    assert!(!toggle_expansion(&mut nodes, "z"));
}

#[test]
fn feeding_paths_in_batches_builds_the_tree_fed_at_once() {
    let expansion = vec![(path("/w/docs"), false)];
    let a = vec![path("/w/z.md"), path("/w/docs/b.md"), path("/w/notes.txt")];
    let b = vec![path("/w/docs/a.md"), path("/w/Alpha/ref.md"), path("/w/docs/b.md"), path("/w/docs/deep/c.markdown")];
    let mut batched: Vec<FileTreeNode> = Vec::new();
    insert_markdown_paths(&mut batched, "/w", a.clone(), &expansion);
    insert_markdown_paths(&mut batched, "/w", b.clone(), &expansion);
    let mut at_once: Vec<FileTreeNode> = Vec::new();
    let mut all = a;
    all.extend(b);
    insert_markdown_paths(&mut at_once, "/w", all, &expansion);
    assert_eq!(batched, at_once);
    assert_eq!(names(&at_once), vec!["Alpha/", "docs/", "z.md"]);
    assert_eq!(names(&at_once[1].children), vec!["deep/", "a.md", "b.md"]);
    assert!(!at_once[1].expanded);
}
