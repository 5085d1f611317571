use post_init::walk::{find_pyproject_files, is_skipped, DirEntry, EntryKind};

fn entry(path: &str, name: &str, kind: EntryKind, parent: usize) -> DirEntry {
    DirEntry { path: path.to_string(), name: Some(name.to_string()), kind, parent }
}

fn sample_tree() -> Vec<DirEntry> {
    vec![
        entry("/r", "r", EntryKind::Dir, 0),
        entry("/r/pyproject.toml", "pyproject.toml", EntryKind::File, 0),
        entry("/r/subdir", "subdir", EntryKind::Dir, 0),
        entry("/r/subdir/pyproject.toml", "pyproject.toml", EntryKind::File, 2),
        entry("/r/subdir/nested", "nested", EntryKind::Dir, 2),
        entry("/r/subdir/nested/pyproject.toml", "pyproject.toml", EntryKind::File, 4),
        entry("/r/.git", ".git", EntryKind::Dir, 0),
        entry("/r/.git/pyproject.toml", "pyproject.toml", EntryKind::File, 6),
    ]
}

#[test]
fn test_find_pyproject_files() {
    let skip_dirs = vec![".git".to_string(), ".venv".to_string()];
    let files = find_pyproject_files(&sample_tree(), &skip_dirs);
    assert_eq!(files.len(), 3);
    assert!(files.iter().any(|f| f.ends_with("pyproject.toml")));
    assert!(!files.iter().any(|f| f.contains(".git")));
}

#[test]
fn walk_returns_matches_in_order() {
    let files = find_pyproject_files(&sample_tree(), &vec![".git".to_string()]);
    assert_eq!(
        files,
        vec![
            "/r/pyproject.toml".to_string(),
            "/r/subdir/pyproject.toml".to_string(),
            "/r/subdir/nested/pyproject.toml".to_string(),
        ]
    );
}

#[test]
fn skipped_directory_hides_its_subtree() {
    let mut tree = sample_tree();
    tree.push(entry("/r/.git/deep", "deep", EntryKind::Dir, 6));
    tree.push(entry("/r/.git/deep/pyproject.toml", "pyproject.toml", EntryKind::File, 8));
    let files = find_pyproject_files(&tree, &vec![".git".to_string()]);
    assert!(files.iter().all(|f| !f.starts_with("/r/.git")));
    let files = find_pyproject_files(&tree, &vec!["subdir".to_string()]);
    assert_eq!(files, vec!["/r/pyproject.toml".to_string(), "/r/.git/pyproject.toml".to_string(), "/r/.git/deep/pyproject.toml".to_string()]);
}

#[test]
fn no_skip_finds_all() {
    assert_eq!(find_pyproject_files(&sample_tree(), &vec![]).len(), 4);
}

#[test]
fn skipping_is_case_sensitive() {
    assert_eq!(find_pyproject_files(&sample_tree(), &vec![".GIT".to_string()]).len(), 4);
    assert!(is_skipped(".git", &vec![".git".to_string()]));
    assert!(!is_skipped(".Git", &vec![".git".to_string()]));
    assert!(!is_skipped(".git", &vec![]));
}

#[test]
fn root_that_is_not_a_directory_gives_nothing() {
    let tree = vec![entry("/r/pyproject.toml", "pyproject.toml", EntryKind::File, 0)];
    assert!(find_pyproject_files(&tree, &vec![]).is_empty());
    assert!(find_pyproject_files(&vec![], &vec![]).is_empty());
}

#[test]
fn other_names_and_kinds_are_ignored() {
    let tree = vec![
        entry("/r", "r", EntryKind::Dir, 0),
        entry("/r/setup.toml", "setup.toml", EntryKind::File, 0),
        entry("/r/pyproject.toml", "pyproject.toml", EntryKind::Other, 0),
        entry("/r/PyProject.toml", "PyProject.toml", EntryKind::File, 0),
        DirEntry { path: "/r/x".to_string(), name: None, kind: EntryKind::Dir, parent: 0 },
        entry("/r/x/pyproject.toml", "pyproject.toml", EntryKind::File, 4),
    ];
    assert!(find_pyproject_files(&tree, &vec![]).is_empty());
}
