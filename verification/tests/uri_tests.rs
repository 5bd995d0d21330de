use amplifier_foundation::uri::{parse_uri, ParsedURI, ResolvedSource};
use amplifier_foundation::registry_names::{extract_bundle_name, resolve_file_uri};
use amplifier_foundation::error::BundleError;

fn parts(p: &ParsedURI) -> (String, String, String, String, String) {
    (p.scheme.clone(), p.host.clone(), p.path.clone(), p.ref_.clone(), p.subpath.clone())
}

fn tuple(a: &str, b: &str, c: &str, d: &str, e: &str) -> (String, String, String, String, String) {
    (a.to_string(), b.to_string(), c.to_string(), d.to_string(), e.to_string())
}

#[test]
fn parses_git_uri_with_ref_and_subdirectory() {
    let p = parse_uri("git+https://github.com/org/repo@main#subdirectory=bundles/x");
    assert_eq!(parts(&p), tuple("git+https", "github.com", "/org/repo", "main", "bundles/x"));
    assert!(p.is_git());
    assert!(!p.is_http());
}

#[test]
fn parses_zip_uri() {
    let p = parse_uri("zip+https://example.com/a.zip");
    assert_eq!(parts(&p), tuple("zip+https", "example.com", "/a.zip", "", ""));
    assert!(p.is_zip());
}

#[test]
fn parses_file_uris_and_paths() {
    let p = parse_uri("file:///tmp/b#subdirectory=s");
    assert_eq!(parts(&p), tuple("file", "", "/tmp/b", "", "s"));
    assert!(p.is_file());
    assert_eq!(parts(&parse_uri("/abs/path")), tuple("file", "", "/abs/path", "", ""));
    assert_eq!(parts(&parse_uri("./rel")), tuple("file", "", "./rel", "", ""));
    assert_eq!(parts(&parse_uri("../up")), tuple("file", "", "../up", "", ""));
}

#[test]
fn parses_http_uri_without_query() {
    let p = parse_uri("https://example.com/x/y.yaml?token=1#subdirectory=z");
    assert_eq!(parts(&p), tuple("https", "example.com", "/x/y.yaml", "", "z"));
    assert!(p.is_http());
    let p = parse_uri("https://example.com");
    assert_eq!(parts(&p), tuple("https", "example.com", "", "", ""));
}

#[test]
fn parses_package_names() {
    let p = parse_uri("foundation/agents/x");
    assert_eq!(parts(&p), tuple("", "", "foundation", "", "agents/x"));
    assert!(p.is_package());
    assert_eq!(parts(&parse_uri("foundation")), tuple("", "", "foundation", "", ""));
}

#[test]
fn ref_needs_a_path_and_no_slash() {
    let p = parse_uri("git+https://h/@main");
    assert_eq!(p.path, "/");
    assert_eq!(p.ref_, "main");
    let p = parse_uri("git+https://h/org/repo@feature/x");
    assert_eq!(p.path, "/org/repo@feature/x");
    assert_eq!(p.ref_, "");
}

#[test]
fn subdirectory_is_the_subdirectory_part_of_the_fragment() {
    let p = parse_uri("git+https://h/r#egg=x&subdirectory=sub");
    assert_eq!(p.subpath, "sub");
    let p = parse_uri("git+https://h/r#egg=x");
    assert_eq!(p.subpath, "");
}

#[test]
fn resolved_source_subdirectory() {
    let r = ResolvedSource { active_path: "/c/x/sub".to_string(), source_root: "/c/x".to_string() };
    assert!(r.is_subdirectory());
    let r = ResolvedSource { active_path: "/c/x/".to_string(), source_root: "/c/x".to_string() };
    assert!(!r.is_subdirectory());
}

#[test]
fn bundle_names_from_uris() {
    assert_eq!(extract_bundle_name("git+https://github.com/org/amplifier-bundle-recipes@main"), "amplifier-bundle-recipes");
    assert_eq!(extract_bundle_name("file:///tmp/bundles/mine#x"), "mine");
    assert_eq!(extract_bundle_name("foundation"), "foundation");
}

#[test]
fn file_uri_resolution() {
    assert_eq!(resolve_file_uri("file:///tmp/x").ok(), Some("/tmp/x".to_string()));
    assert!(matches!(resolve_file_uri("https://x"), Err(BundleError::LoadError { .. })));
}

#[test]
fn uri_kind_follows_its_beginning() {
    for (u, git, zip, http, file, pkg) in [
        ("git+https://github.com/o/r@main", true, false, false, false, false),
        ("zip+file:///a.zip", false, true, false, false, false),
        ("https://example.com/b.yaml", false, false, true, false, false),
        ("http://example.com/b.yaml", false, false, true, false, false),
        ("file:///a/b", false, false, false, true, false),
        ("./a", false, false, false, true, false),
        ("../a", false, false, false, true, false),
        ("/a", false, false, false, true, false),
        ("foundation", false, false, false, false, true),
        ("foundation/sub", false, false, false, false, true),
    ] {
        let p = parse_uri(u);
        assert_eq!(p.is_git(), git, "{u}");
        assert_eq!(p.is_zip(), zip, "{u}");
        assert_eq!(p.is_http(), http, "{u}");
        assert_eq!(p.is_file(), file, "{u}");
        assert_eq!(p.is_package(), pkg, "{u}");
    }
}
