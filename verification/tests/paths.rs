use backed::path::{
    contains_parent_ref, final_component, join, resolve_path, starts_alike,
    trim_leading_separators,
};

fn resolved(sub: &str) -> String {
    resolve_path(Some(sub.to_string())).unwrap().as_str().to_string()
}

#[test]
fn absent_path_is_the_root() {
    assert_eq!(resolve_path(None).unwrap().as_str(), "storage/");
}

#[test]
fn empty_path_is_the_root() {
    assert_eq!(resolved(""), "storage/");
}

#[test]
fn relative_path_goes_under_the_root() {
    assert_eq!(resolved("docs/notes.txt"), "storage/docs/notes.txt");
}

#[test]
fn leading_separators_are_dropped() {
    assert_eq!(resolved("/docs/notes.txt"), "storage/docs/notes.txt");
    assert_eq!(resolved("///docs"), "storage/docs");
    assert_eq!(resolved("/"), "storage/");
    assert_eq!(resolved("/docs"), resolved("docs"));
}

#[test]
fn inner_and_trailing_separators_stay() {
    assert_eq!(resolved("docs//a/"), "storage/docs//a/");
}

#[test]
fn parent_reference_is_refused_wherever_it_stands() {
    for sub in ["..", "../etc", "docs/..", "docs/../etc", "/../etc", "a..b", "...", "docs/.../x"] {
        assert_eq!(resolve_path(Some(sub.to_string())).err(), Some("Invalid path".to_string()));
    }
}

#[test]
fn single_dots_are_accepted() {
    assert_eq!(resolved("./docs/."), "storage/./docs/.");
    assert_eq!(resolved(".hidden"), "storage/.hidden");
    assert_eq!(resolved("a.b.c"), "storage/a.b.c");
}

#[test]
fn non_ascii_paths_are_kept_whole() {
    assert_eq!(resolved("/résumé/été.txt"), "storage/résumé/été.txt");
    assert!(resolve_path(Some("é..é".to_string())).is_err());
}

#[test]
fn parent_reference_scan() {
    assert!(!contains_parent_ref(""));
    assert!(!contains_parent_ref("."));
    assert!(!contains_parent_ref("a.b.c"));
    assert!(!contains_parent_ref("./."));
    assert!(contains_parent_ref(".."));
    assert!(contains_parent_ref("a/..")); 
    assert!(contains_parent_ref("..a"));
    assert!(contains_parent_ref("a/../b"));
}

#[test]
fn trimming_leaves_the_rest_alone() {
    assert_eq!(trim_leading_separators(""), "");
    assert_eq!(trim_leading_separators("///"), "");
    assert_eq!(trim_leading_separators("a/b/"), "a/b/");
    assert_eq!(trim_leading_separators("//a//b"), "a//b");
}

#[test]
fn joining_adds_one_separator_when_needed() {
    assert_eq!(join("storage", "a"), "storage/a");
    assert_eq!(join("storage/", "a"), "storage/a");
    assert_eq!(join("storage", ""), "storage/");
    assert_eq!(join("", "a"), "a");
    assert_eq!(join("storage/docs", "été.txt"), "storage/docs/été.txt");
}

#[test]
fn final_component_skips_single_dots_and_separators() {
    assert_eq!(final_component("storage/docs/a.txt"), Some((13, 18)));
    assert_eq!(final_component("storage/docs/"), Some((8, 12)));
    assert_eq!(final_component("storage/docs/."), Some((8, 12)));
    assert_eq!(final_component("storage/docs/./"), Some((8, 12)));
    assert_eq!(final_component("storage//docs"), Some((9, 13)));
    assert_eq!(final_component("storage"), Some((0, 7)));
    assert_eq!(final_component("a/.b"), Some((2, 4)));
    assert_eq!(final_component("a/b."), Some((2, 4)));
    assert_eq!(final_component(""), None);
    assert_eq!(final_component("/"), None);
    assert_eq!(final_component("."), None);
    assert_eq!(final_component("/./."), None);
}

#[test]
fn final_component_counts_characters() {
    assert_eq!(final_component("été/où"), Some((4, 6)));
}

#[test]
fn file_name_of_resolved_paths() {
    let name = |sub: &str| resolve_path(Some(sub.to_string())).unwrap().file_name();
    assert_eq!(name("docs/notes.txt"), "notes.txt");
    assert_eq!(name("docs/"), "docs");
    assert_eq!(name("docs/."), "docs");
    assert_eq!(name(""), "storage");
    assert_eq!(name("/"), "storage");
    assert_eq!(name("."), "storage");
    assert_eq!(name("docs/été.txt"), "été.txt");
}

#[test]
fn name_span_of_resolved_paths() {
    let target = resolve_path(Some("docs/sub".to_string())).unwrap();
    assert_eq!(target.name_span(), (13, 16));
    let root = resolve_path(None).unwrap();
    assert_eq!(root.name_span(), (0, 7));
}

#[test]
fn starts_alike_compares_characters() {
    assert!(starts_alike("storage/a", "storage/b", 8));
    assert!(!starts_alike("storage/a", "storage/b", 9));
    assert!(starts_alike("abc", "abd", 0));
    assert!(!starts_alike("ab", "abc", 3));
    assert!(!starts_alike("abc", "ab", 3));
    assert!(starts_alike("été", "étx", 2));
}
