use alfred::services::workspace_ignore::{
    always_excluded_patterns, default_alfredignore_patterns, directory_segment_count,
    ignore_walk_step, is_blank_path, is_ignored_by_chain, should_ignore_relative, split_segments,
    IgnoreSource, IgnoreVerdict, IgnoreWalkStep, ALFREDIGNORE_FILENAME,
};

#[test]
fn the_last_matcher_with_a_verdict_decides() {
    assert!(!is_ignored_by_chain(&vec![]));
    assert!(!is_ignored_by_chain(&vec![IgnoreVerdict::Nothing, IgnoreVerdict::Nothing]));
    assert!(is_ignored_by_chain(&vec![IgnoreVerdict::Ignore, IgnoreVerdict::Nothing]));
    assert!(!is_ignored_by_chain(&vec![IgnoreVerdict::Ignore, IgnoreVerdict::Whitelist, IgnoreVerdict::Nothing]));
    assert!(is_ignored_by_chain(&vec![IgnoreVerdict::Whitelist, IgnoreVerdict::Ignore]));
}

#[test]
fn segments_skip_empty_pieces() {
    assert_eq!(split_segments("a//b/c/"), vec!["a", "b", "c"]);
    assert!(split_segments("/").is_empty());
    assert_eq!(directory_segment_count(3, true), 3);
    assert_eq!(directory_segment_count(3, false), 2);
    assert_eq!(directory_segment_count(0, false), 0);
}

#[test]
fn the_walk_checks_parents_in_order_and_stops_at_the_first_ignored() {
    assert!(is_blank_path("  \t"));
    assert!(!is_blank_path(" a "));
    assert_eq!(ignore_walk_step(0, false, 0, false), IgnoreWalkStep::Decided(false));
    assert_eq!(ignore_walk_step(3, false, 0, false), IgnoreWalkStep::CheckDirectory(1));
    assert_eq!(ignore_walk_step(3, false, 1, false), IgnoreWalkStep::CheckDirectory(2));
    assert_eq!(ignore_walk_step(3, false, 1, true), IgnoreWalkStep::Decided(true));
    assert_eq!(ignore_walk_step(3, false, 2, false), IgnoreWalkStep::CheckPath);
    assert_eq!(ignore_walk_step(2, true, 2, false), IgnoreWalkStep::Decided(false));
}

#[test]
fn pattern_lists_hold_the_policy() {
    let always = always_excluded_patterns();
    assert_eq!(always[0], ".git/");
    assert!(always.contains(&"*.png"));
    assert!(!always.contains(&"target/"));
    let defaults = default_alfredignore_patterns();
    assert!(defaults.contains(&"target/"));
    assert!(defaults.contains(&"!.env.example"));
    assert_eq!(ALFREDIGNORE_FILENAME, ".alfredignore");
}

fn lines(patterns: &[&str]) -> Vec<String> {
    patterns.iter().map(|p| p.to_string()).collect()
}

#[test]
fn always_excluded_patterns_win_and_directory_files_apply_below_them() {
    let always: Vec<String> = always_excluded_patterns().into_iter().map(str::to_string).collect();
    let base = vec![IgnoreSource {
        root: "/ws".to_string(),
        lines: default_alfredignore_patterns().into_iter().map(str::to_string).chain(["!target/".to_string()]).collect(),
    }];
    let none: Vec<Vec<String>> = vec![Vec::new(), Vec::new(), Vec::new()];
    assert!(should_ignore_relative("/ws", &always, &base, &none, ".git/config", false));
    assert!(should_ignore_relative("/ws", &always, &base, &none, "img/logo.png", false));
    assert!(!should_ignore_relative("/ws", &always, &base, &none, "src/main.rs", false));
    assert!(!should_ignore_relative("/ws", &always, &base, &none, "target/debug.txt", false));
    assert!(should_ignore_relative("/ws", &always, &base, &none, "node_modules/x.js", false));
    assert!(!should_ignore_relative("/ws", &always, &base, &none, "   ", false));
    let docs = vec![lines(&["*.md"]), Vec::new()];
    assert!(should_ignore_relative("/ws", &always, &base, &docs, "docs/readme.md", false));
    assert!(!should_ignore_relative("/ws", &always, &base, &docs, "readme.md", false));
    let nested = vec![lines(&["private/"]), Vec::new()];
    assert!(should_ignore_relative("/ws", &always, &base, &nested, "a/private/b.txt", false));
}
