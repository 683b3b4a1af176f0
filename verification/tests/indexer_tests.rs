use alfred::services::indexer::{normalize_relative, path_before, should_skip_directory, IndexedFile, WorkspaceIndexer};

fn file(path: &str, text: Option<&str>) -> IndexedFile {
    IndexedFile { path: path.to_string(), text: text.map(|t| t.to_string()) }
}

fn indexer() -> WorkspaceIndexer {
    let mut idx = WorkspaceIndexer::new("/ws".to_string());
    let stats = idx.rebuild(
        vec![
            file("b.txt", Some("Alpha\nbeta\r\nALPHA beta\n")),
            file("A.txt", Some("gamma\nalpha\n")),
            file("bin.dat", None),
        ],
        vec!["src".to_string(), "Docs".to_string()],
    );
    assert_eq!(stats.indexed_files, 3);
    assert_eq!(stats.indexed_directories, 2);
    assert_eq!(stats.indexed_text_files, 2);
    idx
}

#[test]
fn paths_sort_case_insensitively_then_exactly() {
    assert!(path_before("a.txt", "B.txt"));
    assert!(path_before("A", "a"));
    assert!(!path_before("b", "A"));
    let idx = indexer();
    assert_eq!(idx.list_files(), vec!["A.txt".to_string(), "b.txt".to_string(), "bin.dat".to_string()]);
    assert_eq!(idx.list_directories(), vec!["Docs".to_string(), "src".to_string()]);
    assert_eq!(idx.workspace_root(), "/ws");
}

#[test]
fn literal_search_finds_lines_in_order() {
    let idx = indexer();
    let hits = idx.grep_literal("alpha", false);
    let found: Vec<(String, usize, String)> =
        hits.iter().map(|m| (m.path.clone(), m.line, m.text.clone())).collect();
    assert_eq!(
        found,
        vec![
            ("A.txt".to_string(), 2, "alpha".to_string()),
            ("b.txt".to_string(), 1, "Alpha".to_string()),
            ("b.txt".to_string(), 3, "ALPHA beta".to_string()),
        ]
    );
    assert_eq!(idx.grep_literal("alpha", true).len(), 1);
    assert!(idx.grep_literal("", false).is_empty());
    let beta = idx.grep_literal("beta", true);
    assert_eq!(beta[0].text, "beta");
}

#[test]
fn regex_search_matches_and_rejects_bad_patterns() {
    let idx = indexer();
    let hits = idx.search_regex("^a", false).unwrap();
    assert_eq!(hits.len(), 3);
    assert_eq!(idx.search_regex("^a", true).unwrap().len(), 1);
    assert!(idx.search_regex("", true).unwrap().is_empty());
    assert_eq!(idx.search_regex("(", true).unwrap_err(), "invalid regex pattern: (");
}

#[test]
fn line_ranges_are_read_and_checked() {
    let idx = indexer();
    assert_eq!(idx.read_range("./b.txt", 2, 3).unwrap(), "beta\nALPHA beta");
    assert_eq!(idx.read_range(".\\A.txt", 1, 1).unwrap(), "gamma");
    assert_eq!(idx.read_range("b.txt", 0, 1).unwrap_err(), "line numbers must be 1-indexed");
    assert_eq!(
        idx.read_range("b.txt", 3, 2).unwrap_err(),
        "end_line must be greater than or equal to start_line"
    );
    assert_eq!(idx.read_range("zz.txt", 1, 1).unwrap_err(), "indexed file not found: zz.txt");
    assert_eq!(idx.read_range("bin.dat", 1, 1).unwrap_err(), "file is not available as UTF-8 text: bin.dat");
    assert_eq!(
        idx.read_range("b.txt", 1, 4).unwrap_err(),
        "requested line range is out of bounds for file: b.txt"
    );
}

#[test]
fn relative_paths_lose_leading_dot_segments() {
    assert_eq!(normalize_relative("././a\\b"), "a/b");
    assert_eq!(normalize_relative(".hidden"), ".hidden");
}

#[test]
fn git_and_agent_directories_are_skipped() {
    assert!(should_skip_directory(".git"));
    assert!(should_skip_directory(".git/objects"));
    assert!(should_skip_directory(".agents"));
    assert!(should_skip_directory(".agents/x"));
    assert!(!should_skip_directory(".github"));
    assert!(!should_skip_directory("src"));
}

#[test]
fn listings_stay_in_path_order_across_rebuilds() {
    let mut idx = indexer();
    idx.rebuild(
        vec![file("z/last.rs", None), file("Z/first.rs", Some("x")), file("m.rs", None)],
        vec!["z".to_string(), "Z".to_string(), "a".to_string()],
    );
    assert_eq!(
        idx.list_files(),
        vec!["m.rs".to_string(), "Z/first.rs".to_string(), "z/last.rs".to_string()]
    );
    assert_eq!(idx.list_directories(), vec!["a".to_string(), "Z".to_string(), "z".to_string()]);
}
