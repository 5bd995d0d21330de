use amplifier_foundation::bundle::Bundle;
use amplifier_foundation::bundle_compose::{can_compose, compose_with_includes, module_lists_are_mappings};
use amplifier_foundation::error::BundleError;
use amplifier_foundation::json::JsonValue;
use amplifier_foundation::loading::{load_start, LoadStart, LoadingChain, split_frontmatter, bundle_file_format, bundle_from_markdown, bundle_from_yaml_document, included_names, place_bundle, BundleFileFormat};
use amplifier_foundation::sources::{GitSourceHandler, HttpSourceHandler};
use amplifier_foundation::updates::{check_bundle_status, update_bundle};
use amplifier_foundation::value::YamlValue;

fn s(x: &str) -> YamlValue {
    YamlValue::String(x.to_string())
}

fn map(es: Vec<(&str, YamlValue)>) -> YamlValue {
    YamlValue::Mapping(es.into_iter().map(|(k, v)| (s(k), v)).collect())
}

fn strings(xs: &[&str]) -> Vec<String> {
    xs.iter().map(|x| x.to_string()).collect()
}

#[test]
fn yaml_document_is_the_bundle_section() {
    let doc = map(vec![("name", s("y")), ("version", s("3.0.0"))]);
    let b = bundle_from_yaml_document(doc, "/dir").ok().unwrap();
    assert_eq!(b.name, "y");
    assert_eq!(b.version, "3.0.0");
    assert_eq!(b.base_path, Some("/dir".to_string()));
}

#[test]
fn markdown_bundles() {
    let fm = map(vec![("name", s("md"))]);
    let b = bundle_from_markdown(Some(fm), "\n# Hello\n", "/d", Some("d")).ok().unwrap();
    assert_eq!(b.name, "md");
    assert_eq!(b.instruction, Some("# Hello".to_string()));
    let b = bundle_from_markdown(None, "  ", "/d/x", Some("x")).ok().unwrap();
    assert_eq!(b.name, "x");
    assert_eq!(b.base_path, Some("/d/x".to_string()));
    assert_eq!(b.instruction, None);
    let b = bundle_from_markdown(None, "", "/", None).ok().unwrap();
    assert_eq!(b.name, "unknown");
    let bad = map(vec![("tools", s("oops"))]);
    assert!(matches!(bundle_from_markdown(Some(bad), "", "/d", None), Err(BundleError::LoadError { .. })));
}

#[test]
fn bundle_file_formats() {
    assert_eq!(bundle_file_format(Some("md")), BundleFileFormat::Markdown);
    assert_eq!(bundle_file_format(Some("yaml")), BundleFileFormat::Yaml);
    assert_eq!(bundle_file_format(None), BundleFileFormat::Yaml);
}

#[test]
fn placing_under_a_root_bundle() {
    let mut b = Bundle::new("child");
    place_bundle(&mut b, "/root/sub", Some(("root", "/root")));
    assert_eq!(b.base_path, Some("/root/sub".to_string()));
    let got: Vec<(String, String)> = b.source_base_paths.iter().map(|(k, v)| (k.clone(), v.clone())).collect();
    assert_eq!(got, vec![("root".to_string(), "/root".to_string()), ("child".to_string(), "/root".to_string())]);
    let mut same = Bundle::new("x");
    place_bundle(&mut same, "/r", Some(("root", "/r/")));
    assert!(same.source_base_paths.is_empty());
    let mut lone = Bundle::new("x");
    place_bundle(&mut lone, "/r", None);
    assert!(lone.source_base_paths.is_empty());
    assert_eq!(lone.base_path, Some("/r".to_string()));
}

#[test]
fn names_of_loaded_includes() {
    let loaded = vec![Bundle::new("a"), Bundle::new(""), Bundle::new("b")];
    assert_eq!(included_names(&loaded), strings(&["a", "b"]));
}

#[test]
fn composability_checks() {
    let mut good = Bundle::new("g");
    good.tools.push(map(vec![("module", s("t"))]));
    let mut bad = Bundle::new("b");
    bad.tools.push(s("not a mapping"));
    assert!(module_lists_are_mappings(&good));
    assert!(!module_lists_are_mappings(&bad));
    assert!(can_compose(&good, &[&good]));
    assert!(!can_compose(&good, &[&bad]));
}

#[test]
fn composing_over_includes() {
    let mut inc = Bundle::new("inc");
    inc.description = "from include".to_string();
    let top = Bundle::new("top");
    let c = compose_with_includes(top, vec![inc]);
    assert_eq!(c.name, "top");
    assert_eq!(c.description, "from include");
    let alone = compose_with_includes(Bundle::new("solo"), vec![]);
    assert_eq!(alone.name, "solo");
}

#[test]
fn git_clone_commands_and_errors() {
    assert_eq!(
        GitSourceHandler::clone_args("https://h/r", "HEAD", "/c/r"),
        strings(&["clone", "--depth", "1", "https://h/r", "/c/r"])
    );
    assert_eq!(
        GitSourceHandler::clone_args("https://h/r", "v1", "/c/r"),
        strings(&["clone", "--depth", "1", "--branch", "v1", "https://h/r", "/c/r"])
    );
    match GitSourceHandler::clone_failed_error("u", "main", "fatal") {
        BundleError::NotFound { uri } => assert_eq!(uri, "Failed to clone u@main: fatal"),
        _ => panic!("expected not found"),
    }
    match GitSourceHandler::clone_run_error("u", "main", "no git") {
        BundleError::NotFound { uri } => assert_eq!(uri, "Failed to run git clone for u@main: no git"),
        _ => panic!("expected not found"),
    }
    match GitSourceHandler::clone_invalid_error("u", "HEAD") {
        BundleError::NotFound { uri } => assert_eq!(
            uri,
            "Clone of u@HEAD completed but result is invalid (missing pyproject.toml/setup.py/bundle.md)"
        ),
        _ => panic!("expected not found"),
    }
}

#[test]
fn cache_metadata_documents() {
    match GitSourceHandler::cache_metadata("t", "main", None, "u") {
        JsonValue::Object(ms) => {
            let keys: Vec<&str> = ms.iter().map(|(k, _)| k.as_str()).collect();
            assert_eq!(keys, vec!["cached_at", "commit", "git_url", "ref"]);
            assert!(matches!(ms[1].1, JsonValue::Null));
        },
        _ => panic!("expected an object"),
    }
    match HttpSourceHandler::download_metadata(Some("e"), None, "t", "u") {
        JsonValue::Object(ms) => {
            let keys: Vec<&str> = ms.iter().map(|(k, _)| k.as_str()).collect();
            assert_eq!(keys, vec!["cached_at", "etag", "last_modified", "url"]);
            assert!(matches!(&ms[1].1, JsonValue::String(e) if e == "e"));
            assert!(matches!(ms[2].1, JsonValue::Null));
        },
        _ => panic!("expected an object"),
    }
    match HttpSourceHandler::download_error("u", "HTTP 404") {
        BundleError::NotFound { uri } => assert_eq!(uri, "Failed to download u: HTTP 404"),
        _ => panic!("expected not found"),
    }
}

#[test]
fn status_and_update_of_sources() {
    let st = check_bundle_status("/local/bundle").ok().unwrap();
    assert_eq!(st.bundle_name, "/local/bundle");
    assert_eq!(st.sources.len(), 1);
    assert_eq!(st.sources[0].has_update, Some(false));
    let st = check_bundle_status("git+https://h/r").ok().unwrap();
    assert_eq!(st.sources[0].has_update, None);
    assert!(update_bundle("file:///x").is_ok());
    match update_bundle("git+https://h/r") {
        Err(BundleError::LoadError { reason }) => {
            assert_eq!(reason, "Update not yet implemented for URI scheme 'git+https': git+https://h/r")
        },
        _ => panic!("expected a load error"),
    }
}

#[test]
fn frontmatter_splitting() {
    assert_eq!(
        split_frontmatter("---\nname: x\n---\nBody text\n"),
        Some(("name: x\n".to_string(), "Body text\n".to_string()))
    );
    assert_eq!(split_frontmatter("---\n---\n"), Some((String::new(), String::new())));
    assert_eq!(split_frontmatter("---\na: 1\n---"), Some(("a: 1\n".to_string(), String::new())));
    assert_eq!(split_frontmatter("---\na: 1\n----\nb"), None);
    assert_eq!(split_frontmatter("no frontmatter"), None);
    assert_eq!(split_frontmatter("---\nunclosed"), None);
}

#[test]
fn loading_starts_from_cache_cycle_or_disk() {
    let chain = LoadingChain::new().with("file:///b/a").with("file:///b/a");
    assert_eq!(chain.to_vec(), vec!["file:///b/a".to_string()]);
    assert!(matches!(load_start("file:///b/a", true, &chain), LoadStart::UseCached));
    match load_start("file:///b/a", false, &chain) {
        LoadStart::BreakCycle(b) => assert_eq!(b.name, "a"),
        _ => panic!("expected a cycle stub"),
    }
    assert!(matches!(load_start("file:///b/c", false, &chain), LoadStart::Load));
}

#[test]
fn download_limits_refuse_large_or_slow_downloads() {
    assert!(HttpSourceHandler::check_download_limits("u", 104857600, 120).is_ok());
    match HttpSourceHandler::check_download_limits("u", 104857601, 0) {
        Err(BundleError::NotFound { uri }) => assert_eq!(uri, "Failed to download u: response larger than 104857600 bytes"),
        _ => panic!("expected the size error"),
    }
    match HttpSourceHandler::check_download_limits("u", 1, 121) {
        Err(BundleError::NotFound { uri }) => assert_eq!(uri, "Failed to download u: timed out after 120 seconds"),
        _ => panic!("expected the time error"),
    }
}
