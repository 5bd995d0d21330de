use amplifier_foundation::json::JsonValue;
use amplifier_foundation::registry::{resource_candidate_paths, BundleRegistry, BundleState};
use amplifier_foundation::registry_names::parse_include;
use amplifier_foundation::value::YamlValue;

fn s(x: &str) -> YamlValue {
    YamlValue::String(x.to_string())
}

fn reg(pairs: &[(&str, &str)]) -> BundleRegistry {
    let mut r = BundleRegistry::new("/home/u/.amplifier");
    let owned: Vec<(String, String)> = pairs.iter().map(|(a, b)| (a.to_string(), b.to_string())).collect();
    r.register(&owned);
    r
}

#[test]
fn register_find_and_list() {
    let r = reg(&[("zeta", "git+https://h/z"), ("alpha", "file:///a")]);
    assert_eq!(r.find("zeta"), Some("git+https://h/z".to_string()));
    assert_eq!(r.find("nope"), None);
    assert_eq!(r.list_registered(), vec!["alpha".to_string(), "zeta".to_string()]);
    assert_eq!(r.home(), "/home/u/.amplifier");
}

#[test]
fn register_again_updates_the_uri() {
    let mut r = reg(&[("a", "file:///one")]);
    r.register(&[("a".to_string(), "file:///two".to_string())]);
    assert_eq!(r.find("a"), Some("file:///two".to_string()));
    assert_eq!(r.list_registered().len(), 1);
}

#[test]
fn unregister_forgets_and_unlinks() {
    let mut r = reg(&[("p", "file:///p"), ("c", "file:///c")]);
    r.record_include_relationships("p", &["c".to_string()]);
    assert!(r.unregister("c"));
    assert!(!r.unregister("c"));
    assert_eq!(r.find("c"), None);
    assert!(r.find_state("p").unwrap().includes.is_empty());
}

#[test]
fn include_relationships_are_recorded_both_ways() {
    let mut r = reg(&[("p", "file:///p"), ("c", "file:///c")]);
    r.record_include_relationships("p", &["c".to_string(), "c".to_string()]);
    assert_eq!(r.find_state("p").unwrap().includes, vec!["c".to_string()]);
    assert_eq!(r.find_state("c").unwrap().included_by, vec!["p".to_string()]);
}

#[test]
fn get_state_records_a_fresh_state() {
    let mut r = reg(&[]);
    let st = r.get_state("new");
    assert_eq!(st.name, "new");
    assert_eq!(st.uri, "");
    assert!(r.find_state("new").is_some());
}

#[test]
fn state_dict_round_trip() {
    let mut st = BundleState::new("b", "git+https://h/b");
    st.version = Some("1.2.0".to_string());
    st.includes = vec!["x".to_string()];
    st.root_name = Some("root".to_string());
    let back = BundleState::from_dict("b", &st.to_dict());
    assert_eq!(back.uri, st.uri);
    assert_eq!(back.version, st.version);
    assert_eq!(back.includes, st.includes);
    assert_eq!(back.root_name, st.root_name);
    assert_eq!(back.is_root, st.is_root);
}

#[test]
fn registry_json_round_trip() {
    let mut r = reg(&[("a", "file:///a"), ("b", "git+https://h/b")]);
    r.record_include_relationships("a", &["b".to_string()]);
    let json = r.to_json();
    let mut fresh = BundleRegistry::new("/elsewhere");
    fresh.load_persisted_state(&json);
    assert_eq!(fresh.find("a"), Some("file:///a".to_string()));
    assert_eq!(fresh.find("b"), Some("git+https://h/b".to_string()));
    assert_eq!(fresh.find_state("a").unwrap().includes, vec!["b".to_string()]);
    assert_eq!(fresh.find_state("b").unwrap().included_by, vec!["a".to_string()]);
}

#[test]
fn persisted_state_without_bundles_changes_nothing() {
    let mut r = reg(&[("a", "file:///a")]);
    r.load_persisted_state(&JsonValue::Null);
    assert_eq!(r.list_registered(), vec!["a".to_string()]);
}

#[test]
fn include_sources_resolve() {
    let r = reg(&[("git-ns", "git+https://h/repo#subdirectory=x"), ("file-ns", "file:///f")]);
    assert_eq!(r.resolve_include_source("https://h/x.yaml"), Some("https://h/x.yaml".to_string()));
    assert_eq!(r.resolve_include_source("plain-name"), Some("plain-name".to_string()));
    assert_eq!(r.resolve_include_source("unknown:path"), None);
    assert_eq!(
        r.resolve_include_source("git-ns:agents/a"),
        Some("git+https://h/repo#subdirectory=agents/a".to_string())
    );
    assert_eq!(r.resolve_include_source("file-ns:agents/a"), None);
}

#[test]
fn include_entries_and_preload() {
    let r = reg(&[("ns", "git+https://h/ns")]);
    assert_eq!(parse_include(&s("x")), Some("x".to_string()));
    let entry = YamlValue::Mapping(vec![(s("bundle"), s("y"))]);
    assert_eq!(parse_include(&entry), Some("y".to_string()));
    assert_eq!(parse_include(&YamlValue::Null), None);
    let entries = vec![s("ns:a"), s("ns:b"), s("other:c"), s("https://x/y")];
    assert_eq!(r.namespaces_to_preload(&entries, &[]), vec!["ns".to_string()]);
    assert!(r.namespaces_to_preload(&entries, &["git+https://h/ns".to_string()]).is_empty());
}

#[test]
fn preloaded_namespace_records_its_path() {
    let mut r = reg(&[("ns", "git+https://h/ns")]);
    r.mark_preloaded("ns", "/cache/ns", "2024-01-01T00:00:00");
    assert_eq!(r.find_state("ns").unwrap().local_path, Some("/cache/ns".to_string()));
    r.mark_preloaded("missing", "/x", "t");
    assert!(r.find_state("missing").is_none());
}

#[test]
fn resource_candidates_in_order() {
    assert_eq!(
        resource_candidate_paths("/b/x"),
        vec!["/b/x", "/b/x.yaml", "/b/x.yml", "/b/x.md", "/b/x/bundle.yaml", "/b/x/bundle.md"]
    );
}

#[test]
fn planning_include_sources() {
    let r = reg(&[("ns", "file:///ns"), ("g", "git+https://h/g")]);
    let entries = vec![s("https://x/a.yaml"), s("unknown:skip"), s("g:agents/a"), s("plain")];
    assert_eq!(
        r.plan_include_sources(&entries).ok(),
        Some(vec![
            "https://x/a.yaml".to_string(),
            "git+https://h/g#subdirectory=agents/a".to_string(),
            "plain".to_string()
        ])
    );
    match r.plan_include_sources(&[s("ns:missing")]) {
        Err(amplifier_foundation::error::BundleError::DependencyError(m)) => assert_eq!(
            m,
            "Include resolution failed: 'ns:missing'. Namespace 'ns' is registered but the path doesn't exist."
        ),
        _ => panic!("expected a dependency error"),
    }
}

#[test]
fn bundle_file_choice_prefers_markdown() {
    assert_eq!(amplifier_foundation::registry::bundle_file_choice("/d", true, true), Some("/d/bundle.md".to_string()));
    assert_eq!(amplifier_foundation::registry::bundle_file_choice("/d", false, true), Some("/d/bundle.yaml".to_string()));
    assert_eq!(amplifier_foundation::registry::bundle_file_choice("/d", false, false), None);
}

#[test]
fn settled_path_prefers_canonical_then_absolute() {
    let f = amplifier_foundation::disk::settled_path;
    assert_eq!(f("x", Some("/c/x".to_string()), Some("/a/x".to_string())), "/c/x");
    assert_eq!(f("x", None, Some("/a/x".to_string())), "/a/x");
    assert_eq!(f("x", None, None), "x");
}

#[test]
fn found_resource_is_settled() {
    assert_eq!(amplifier_foundation::registry::find_resource_path("/"), Some("/".to_string()));
    assert_eq!(amplifier_foundation::registry::find_resource_path("/nonexistent-resource-xyz/none"), None);
}

#[test]
fn include_uri_of_a_found_resource() {
    let f = amplifier_foundation::registry::include_uri_for_found;
    assert_eq!(f("git+https://github.com/o/r@main#x=1", "/cache/r", "/cache/r/sub/b.yaml".to_string()), "git+https://github.com/o/r@main#subdirectory=sub/b.yaml");
    assert_eq!(f("file:///b", "/b", "/b/x.yaml".to_string()), "file:///b/x.yaml");
}

#[test]
fn unregister_leaves_no_links() {
    let mut r = reg(&[("a", "file:///a"), ("b", "file:///b")]);
    r.record_include_relationships("a", &["b".to_string()]);
    assert!(r.unregister("b"));
    assert_eq!(r.find("b"), None);
    let a = r.get_state("a");
    assert!(a.includes.is_empty());
}

#[test]
fn first_present_picks_the_first_yes() {
    let f = amplifier_foundation::disk::first_present;
    assert_eq!(f(&vec![false, true, true]), Some(1));
    assert_eq!(f(&vec![false, false]), None);
    assert_eq!(f(&vec![]), None);
}

#[test]
fn nearest_bundle_file_takes_the_first_directory_with_one() {
    let f = amplifier_foundation::registry::nearest_bundle_file;
    let dirs = vec!["/a/b".to_string(), "/a".to_string(), "/".to_string()];
    assert_eq!(f(&dirs, &vec![false, false, true], &vec![false, true, false]), Some("/a/bundle.yaml".to_string()));
    assert_eq!(f(&dirs, &vec![false, true, false], &vec![false, true, false]), Some("/a/bundle.md".to_string()));
    assert_eq!(f(&dirs, &vec![false, false, false], &vec![false, false, false]), None);
}

#[test]
fn walk_stops_at_stop_or_top() {
    let f = amplifier_foundation::registry::next_dir;
    assert_eq!(f("/a/b", "/a/b", "/a"), Some("/a".to_string()));
    assert_eq!(f("/a/b", "/a/b", "/a/b/"), None);
    assert_eq!(f("/", "/", "/x"), None);
}

#[test]
fn nearest_bundle_file_on_missing_directories_is_none() {
    let r = BundleRegistry::new("/home/u/.amplifier");
    assert_eq!(r.find_nearest_bundle_file("/nonexistent-dir-xyz/a/b", "/nonexistent-dir-xyz"), None);
}
