use cxdb::options::{
    with_exclude, with_follow_symlinks, with_max_file_size, with_max_files, Options,
    DEFAULT_MAX_FILES, DEFAULT_MAX_FILE_SIZE,
};

fn opts(patterns: &[&str]) -> Options {
    let mut o = Options::default();
    o.apply(with_exclude(patterns.iter().map(|p| p.to_string()).collect()));
    o
}

#[test]
fn double_star_excludes_directory_and_descendants() {
    let o = opts(&["build/**"]);
    assert!(o.should_exclude("build", true));
    assert!(o.should_exclude("build/sub", true));
    assert!(o.should_exclude("build/sub/deeper", true));
    assert!(!o.should_exclude("builder", true));
    assert!(!o.should_exclude("src", true));
}

#[test]
fn name_patterns_apply_at_any_depth() {
    let o = opts(&["*.tmp"]);
    assert!(o.should_exclude("x.tmp", false));
    assert!(o.should_exclude("a/x.tmp", false));
    assert!(o.should_exclude("a/b/c/x.tmp", false));
    assert!(o.should_exclude("a\\b\\x.tmp", false));
    assert!(!o.should_exclude("a/x.txt", false));
}

#[test]
fn no_patterns_exclude_nothing() {
    let o = Options::default();
    assert!(!o.should_exclude("anything", false));
    assert!(!o.should_exclude("", true));
}

#[test]
fn invalid_patterns_match_nothing() {
    let o = opts(&["[", "a/b"]);
    assert!(!o.should_exclude("[", false));
    assert!(o.should_exclude("a/b", false));
}

#[test]
fn defaults_and_settings() {
    let mut o = Options::default();
    assert_eq!(o.max_file_size, DEFAULT_MAX_FILE_SIZE);
    assert_eq!(o.max_file_size, 100 * 1024 * 1024);
    assert_eq!(o.max_files, DEFAULT_MAX_FILES);
    assert_eq!(o.max_files, 100_000);
    assert!(!o.follow_symlinks);
    o.apply(with_follow_symlinks());
    o.apply(with_max_file_size(7));
    o.apply(with_max_files(3));
    o.apply(with_exclude(vec!["a".into()]));
    o.apply(with_exclude(vec!["b".into()]));
    assert!(o.follow_symlinks);
    assert_eq!((o.max_file_size, o.max_files), (7, 3));
    assert_eq!(o.exclude_patterns, vec!["a".to_string(), "b".to_string()]);
}
