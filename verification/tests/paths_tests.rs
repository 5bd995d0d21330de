use amplifier_foundation::paths::{
    construct_agent_path, construct_context_path, expand_tilde, join_path, make_absolute,
    normalize_components, normalize_path, path_starts_with, same_path, sanitize_name,
};
use amplifier_foundation::discovery::{amplifier_home_from, glob_pattern, sort_found_paths};

#[test]
fn sanitize_name_strips_traversal() {
    assert_eq!(sanitize_name("../../etc/passwd"), "etc/passwd");
    assert_eq!(sanitize_name("/abs/name"), "abs/name");
    assert_eq!(sanitize_name("a..b"), "ab");
    assert_eq!(sanitize_name("plain"), "plain");
}

#[test]
fn sanitized_names_stay_relative() {
    assert_eq!(sanitize_name("\\/x"), "x");
    assert_eq!(sanitize_name("....//"), "");
    assert_eq!(sanitize_name("..//etc"), "etc");
    assert_eq!(construct_agent_path("/b", "....//"), "/b/agents/.md");
    assert_eq!(construct_context_path("/srv/b", "....//"), "/srv/b");
    assert_eq!(construct_context_path("/srv/b", "..//etc/passwd"), "/srv/b/etc/passwd");
}

#[test]
fn sanitized_names_hold_no_parent_step() {
    for name in ["..", "../..", "....//x", "a/../../b", "..\\..\\c"] {
        assert!(!sanitize_name(name).contains(".."));
    }
}

#[test]
fn agent_path_appends_md() {
    assert_eq!(construct_agent_path("/b", "helper"), "/b/agents/helper.md");
    assert_eq!(construct_agent_path("/b", "helper.md"), "/b/agents/helper.md");
    assert_eq!(construct_agent_path("/b", "../x"), "/b/agents/x.md");
}

#[test]
fn context_path_empty_name_is_base() {
    assert_eq!(construct_context_path("/b", ""), "/b");
    assert_eq!(construct_context_path("/b", "ctx/a.md"), "/b/ctx/a.md");
    assert_eq!(construct_context_path("/b", "../secret"), "/b/secret");
}

#[test]
fn join_follows_path_join() {
    assert_eq!(join_path("/a", "b"), "/a/b");
    assert_eq!(join_path("/a/", "b"), "/a/b");
    assert_eq!(join_path("/a", "/b"), "/b");
    assert_eq!(join_path("", "b"), "b");
}

#[test]
fn normalize_resolves_dots_lexically() {
    assert_eq!(normalize_components("/a/./b/../c"), "/a/c");
    assert_eq!(normalize_components("/../a"), "/a");
    assert_eq!(normalize_components("a/../../b"), "b");
}

#[test]
fn normalize_path_absolute_and_relative() {
    assert_eq!(normalize_path("/a/./b/../c", None, "/cwd", None), "/a/c");
    assert_eq!(normalize_path("x/y", Some("/base"), "/cwd", None), "/base/x/y");
    assert_eq!(normalize_path("x", None, "/cwd", None), "/cwd/x");
    assert_eq!(normalize_path("./x/../y", None, "/cwd", None), "/cwd/y");
}

#[test]
fn normalize_path_expands_tilde() {
    assert_eq!(normalize_path("~/docs", None, "/cwd", Some("/home/u")), "/home/u/docs");
    assert_eq!(normalize_path("~", None, "/cwd", Some("/home/u")), "/home/u");
    assert_eq!(normalize_path("~/docs", None, "/cwd", None), "/cwd/~/docs");
}

#[test]
fn expand_tilde_cases() {
    assert_eq!(expand_tilde("~/a", Some("/h")), "/h/a");
    assert_eq!(expand_tilde("~", Some("/h")), "/h");
    assert_eq!(expand_tilde("~x", Some("/h")), "~x");
    assert_eq!(expand_tilde("~/a", None), "~/a");
}

#[test]
fn make_absolute_joins_cwd() {
    assert_eq!(make_absolute("a/b", "/w"), "/w/a/b");
    assert_eq!(make_absolute("/a/../b", "/w"), "/b");
}

#[test]
fn path_equality_and_prefix_by_components() {
    assert!(same_path("/a/b", "/a//b/"));
    assert!(!same_path("/a/b", "/a/c"));
    assert!(path_starts_with("/a/b/c", "/a/b"));
    assert!(!path_starts_with("/a/bc", "/a/b"));
}

#[test]
fn glob_pattern_prefixes_recursive_search() {
    assert_eq!(glob_pattern("/base", "*.md", true), "/base/**/*.md");
    assert_eq!(glob_pattern("/base", "**/*.md", true), "/base/**/*.md");
    assert_eq!(glob_pattern("/base", "*.md", false), "/base/*.md");
}

#[test]
fn found_paths_sorted_by_components() {
    let found = Some(vec![
        Some("/b/x".to_string()),
        None,
        Some("/a/z".to_string()),
        Some("/a/y/q".to_string()),
        Some("/a".to_string()),
    ]);
    assert_eq!(sort_found_paths(found), vec!["/a", "/a/y/q", "/a/z", "/b/x"]);
    assert!(sort_found_paths(None).is_empty());
}

#[test]
fn found_paths_compare_components_not_text() {
    // As text "/a-b" < "/a/b", but as paths the component "a" comes first.
    let found = Some(vec![Some("/a-b".to_string()), Some("/a/b".to_string())]);
    assert_eq!(sort_found_paths(found), vec!["/a/b", "/a-b"]);
}

#[test]
fn amplifier_home_candidate_is_made_absolute() {
    let home = amplifier_home_from(Some("rel/home"), None, "/nonexistent-cwd-for-test");
    assert_eq!(home, "/nonexistent-cwd-for-test/rel/home");
    let home = amplifier_home_from(None, Some("/nonexistent-home-for-test"), "/w");
    assert_eq!(home, "/nonexistent-home-for-test/.amplifier");
}

#[test]
fn bundle_root_of_missing_directories_is_none() {
    assert_eq!(amplifier_foundation::discovery::find_bundle_root("/nonexistent-dir-xyz/a", "/"), None);
}

#[test]
fn whitespace_is_the_unicode_white_space_property() {
    for n in 0u32..=0x10FFFF {
        if let Some(c) = char::from_u32(n) {
            let s = c.to_string();
            assert_eq!(amplifier_foundation::text::trim_whitespace(&s), s.trim(), "U+{n:04X}");
        }
    }
}
