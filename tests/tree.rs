use dirtree::{
    decimal_string, filter_hidden, is_excluded_name, is_last_sibling, keeps_subtree, render_line, render_row,
    render_tree, starts_with_dot, summary_lines, DepthCounts, Entry, TraversalConfig,
};

fn entry(name: &str, is_dir: bool, depth: usize, is_last: bool) -> Entry {
    Entry { name: name.to_string(), is_dir, depth, is_last }
}

fn config(show_hidden: bool, dirs_only: bool, angular: bool) -> TraversalConfig {
    TraversalConfig { show_hidden, dirs_only, angular }
}

/// A root holding `src/app/a.ts` and `.git/HEAD`, listed depth first.
fn sample() -> Vec<Entry> {
    vec![
        entry("src", true, 1, false),
        entry("app", true, 2, true),
        entry("a.ts", false, 3, true),
        entry(".git", true, 1, true),
        entry("HEAD", false, 2, true),
    ]
}

fn summary_of(total: usize, rows: &[(usize, usize)]) -> Vec<String> {
    let mut v = vec![
        String::new(),
        "――――――――――――――――――――――――――――".to_string(),
        "【集計結果】".to_string(),
        format!("全体ディレクトリ数: {}", total),
        "階層ごとのディレクトリ数:".to_string(),
    ];
    for (d, c) in rows {
        v.push(format!("  深さ {:>2}: {} 個", d, c));
    }
    v
}

#[test]
fn sample_default_hides_dot_git() {
    let r = render_tree(&config(false, false, false), &sample());
    assert_eq!(r.lines, vec!["├── src", "    └── app", "        └── a.ts"]);
    assert_eq!(r.total_dirs, 2);
    assert_eq!(r.depth_counts.rows(), &vec![(1, 1), (2, 1)]);
}

#[test]
fn sample_all_shows_everything() {
    let r = render_tree(&config(true, false, false), &sample());
    assert_eq!(
        r.lines,
        vec!["├── src", "    └── app", "        └── a.ts", "└── .git", "    └── HEAD"]
    );
    assert_eq!(r.total_dirs, 3);
    assert_eq!(r.depth_counts.rows(), &vec![(1, 2), (2, 1)]);
}

#[test]
fn sample_angular_omits_git_subtree() {
    let r = render_tree(&config(true, false, true), &sample());
    assert_eq!(r.lines, vec!["├── src", "    └── app", "        └── a.ts"]);
    assert_eq!(r.total_dirs, 2);
}

#[test]
fn sample_dirs_only_angular() {
    let r = render_tree(&config(false, true, true), &sample());
    assert_eq!(r.lines, vec!["├── src", "    └── app"]);
    assert_eq!(r.total_dirs, 2);
    assert_eq!(r.depth_counts.rows(), &vec![(1, 1), (2, 1)]);
    let mut expected: Vec<String> = vec!["├── src".to_string(), "    └── app".to_string()];
    expected.extend(summary_of(2, &[(1, 1), (2, 1)]));
    assert_eq!(r.output_lines(), expected);
}

#[test]
fn repeated_walk_is_identical() {
    let cfg = config(true, false, true);
    let a = render_tree(&cfg, &sample()).output_lines();
    let b = render_tree(&cfg, &sample()).output_lines();
    assert_eq!(a, b);
}

#[test]
fn totals_match_counts_and_dir_lines() {
    let listing = vec![
        entry("a", true, 1, false),
        entry("b", true, 2, false),
        entry("c", true, 2, false),
        entry("f", false, 2, true),
        entry("d", true, 1, false),
        entry("e", true, 2, true),
        entry("g", false, 1, true),
    ];
    let r = render_tree(&config(false, false, false), &listing);
    assert_eq!(r.lines.len(), 7);
    assert_eq!(r.total_dirs, 5);
    let sum: usize = r.depth_counts.rows().iter().map(|p| p.1).sum();
    assert_eq!(sum, 5);
    assert_eq!(r.depth_counts.rows(), &vec![(1, 2), (2, 3)]);
    assert_eq!(r.depth_counts.get(2), 3);
    assert_eq!(r.depth_counts.get(9), 0);
}

#[test]
fn dirs_only_counts_no_files() {
    let listing = vec![
        entry("x.txt", false, 1, false),
        entry("dir", true, 1, false),
        entry("y.txt", false, 2, true),
        entry("z.txt", false, 1, true),
    ];
    let r = render_tree(&config(false, true, false), &listing);
    assert_eq!(r.lines, vec!["├── dir"]);
    assert_eq!(r.total_dirs, 1);
    assert_eq!(r.depth_counts.rows(), &vec![(1, 1)]);
}

#[test]
fn hidden_directory_is_not_entered() {
    let listing = vec![
        entry(".cache", true, 1, false),
        entry("inner", true, 2, false),
        entry("deep", true, 3, true),
        entry(".x", false, 2, true),
        entry("visible", true, 1, false),
        entry(".env", false, 1, true),
    ];
    let r = render_tree(&config(false, false, false), &listing);
    assert_eq!(r.lines, vec!["├── visible"]);
    assert_eq!(r.total_dirs, 1);
}

#[test]
fn preset_names_apply_to_directories_only() {
    let listing = vec![
        entry("node_modules", true, 1, false),
        entry("pkg", true, 2, true),
        entry("node_modules", false, 1, false),
        entry(".vscode", true, 1, false),
        entry("lib", true, 1, false),
        entry(".git", true, 2, true),
        entry("objects", true, 3, true),
    ];
    let r = render_tree(&config(true, false, true), &listing);
    assert_eq!(r.lines, vec!["├── node_modules", "├── lib"]);
    assert_eq!(r.total_dirs, 1);
    assert_eq!(r.depth_counts.rows(), &vec![(1, 1)]);
}

#[test]
fn last_flag_follows_unfiltered_listing() {
    // the last rendered entry keeps the tee because a hidden sibling comes after it
    let listing = vec![entry("a", false, 1, false), entry(".z", false, 1, true)];
    let r = render_tree(&config(false, false, false), &listing);
    assert_eq!(r.lines, vec!["├── a"]);
}

#[test]
fn lossy_dot_names_are_hidden() {
    // the replacement character stands for bytes that are not valid UTF-8
    let listing = vec![entry(".\u{FFFD}x", true, 1, false), entry("inner", false, 2, true), entry("kept", false, 1, true)];
    let r = render_tree(&config(false, false, false), &listing);
    assert_eq!(r.lines, vec!["└── kept"]);
    assert_eq!(r.total_dirs, 0);
}

#[test]
fn empty_listing_reports_zero() {
    let r = render_tree(&config(false, false, false), &Vec::new());
    assert!(r.lines.is_empty());
    assert_eq!(r.total_dirs, 0);
    assert_eq!(r.output_lines(), summary_of(0, &[]));
}

#[test]
fn summary_depths_increase() {
    let listing = vec![
        entry("a", true, 1, false),
        entry("b", true, 2, false),
        entry("c", true, 3, true),
        entry("d", true, 1, true),
        entry("e", true, 2, true),
    ];
    let r = render_tree(&config(false, false, false), &listing);
    assert_eq!(r.depth_counts.rows(), &vec![(1, 2), (2, 2), (3, 1)]);
    assert_eq!(summary_lines(r.total_dirs, &r.depth_counts), summary_of(5, &[(1, 2), (2, 2), (3, 1)]));
}

#[test]
fn hidden_rule() {
    assert!(!filter_hidden(&".env".to_string(), false));
    assert!(filter_hidden(&".env".to_string(), true));
    assert!(filter_hidden(&"env".to_string(), false));
    assert!(!filter_hidden(&".\u{FFFD}".to_string(), false));
    assert!(filter_hidden(&String::new(), false));
    assert!(starts_with_dot(&".".to_string()));
    assert!(!starts_with_dot(&"a.".to_string()));
}

#[test]
fn preset_names() {
    assert!(is_excluded_name(&".vscode".to_string()));
    assert!(is_excluded_name(&"node_modules".to_string()));
    assert!(is_excluded_name(&".git".to_string()));
    assert!(!is_excluded_name(&".github".to_string()));
    assert!(!is_excluded_name(&"git".to_string()));
}

#[test]
fn subtree_rule_order() {
    let angular = config(true, false, true);
    assert!(!keeps_subtree(&angular, &".git".to_string(), true));
    assert!(keeps_subtree(&angular, &".git".to_string(), false));
    assert!(keeps_subtree(&config(true, false, false), &".git".to_string(), true));
    assert!(!keeps_subtree(&config(false, false, false), &".hidden".to_string(), false));
    assert!(keeps_subtree(&config(false, true, false), &"file.txt".to_string(), false));
}

#[test]
fn decimal_digits() {
    assert_eq!(decimal_string(0), "0");
    assert_eq!(decimal_string(7), "7");
    assert_eq!(decimal_string(10), "10");
    assert_eq!(decimal_string(12345), "12345");
    assert_eq!(decimal_string(usize::MAX), usize::MAX.to_string());
}

#[test]
fn row_text() {
    assert_eq!(render_row(1, 2), "  深さ  1: 2 個");
    assert_eq!(render_row(12, 345), "  深さ 12: 345 個");
    assert_eq!(render_row(100, 0), "  深さ 100: 0 個");
}

#[test]
fn line_text() {
    assert_eq!(render_line(&entry("x", false, 1, true)), "└── x");
    assert_eq!(render_line(&entry("y", true, 3, false)), "        ├── y");
    assert_eq!(render_line(&entry("z", true, 0, false)), "├── z");
}

#[test]
fn last_sibling() {
    let names = vec![b"a".to_vec(), b"b".to_vec()];
    assert!(is_last_sibling(&names, &b"b".to_vec()));
    assert!(!is_last_sibling(&names, &b"a".to_vec()));
    assert!(!is_last_sibling(&names, &b"bb".to_vec()));
    assert!(!is_last_sibling(&Vec::new(), &b"a".to_vec()));
    // two names that read the same once made lossy are still told apart
    let raw = vec![vec![b'.', 0xff], vec![b'.', 0xfe]];
    assert!(is_last_sibling(&raw, &vec![b'.', 0xfe]));
    assert!(!is_last_sibling(&raw, &vec![b'.', 0xff]));
}

#[test]
fn depth_counts_record() {
    let mut c = DepthCounts::new();
    c.record(3);
    c.record(1);
    c.record(3);
    c.record(2);
    assert_eq!(c.rows(), &vec![(1, 1), (2, 1), (3, 2)]);
    assert_eq!(c.get(3), 2);
    assert_eq!(c.get(0), 0);
}
