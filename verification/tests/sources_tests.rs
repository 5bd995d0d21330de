use amplifier_foundation::error::BundleError;
use amplifier_foundation::json::JsonValue;
use amplifier_foundation::sources::{
    file_source_result, resolved_for_check, safe_join, FileSourceHandler, GitSourceHandler, HeadOutcome, HttpSourceHandler, SourceHandler, SourceStatus,
    ZipSourceHandler, HTTP_DOWNLOAD_TIMEOUT_SECS, MAX_DOWNLOAD_BYTES,
};
use amplifier_foundation::updates::BundleStatus;
use amplifier_foundation::uri::parse_uri;

fn sha256_hex_of(s: &str) -> String {
    format!("{:x}", <sha2::Sha256 as sha2::Digest>::digest(s.as_bytes()))
}

fn status(has_update: Option<bool>) -> SourceStatus {
    let mut s = SourceStatus::new("u");
    s.has_update = has_update;
    s
}

#[test]
fn pinned_refs() {
    let mut s = SourceStatus::new("git+https://h/r");
    assert!(!s.is_pinned());
    s.cached_ref = Some("v1.2".to_string());
    assert!(s.is_pinned());
    s.cached_ref = Some("main".to_string());
    assert!(!s.is_pinned());
    s.cached_ref = Some("0123456789abcdefABCDEF0123456789abcdef01".to_string());
    assert!(s.is_pinned());
    s.cached_ref = Some("version".to_string());
    assert!(!s.is_pinned());
}

#[test]
fn safe_join_refuses_escapes() {
    assert_eq!(safe_join("/nonexistent-base", "").ok(), Some("/nonexistent-base".to_string()));
    assert_eq!(safe_join("/nonexistent-base", "a/b").ok(), Some("/nonexistent-base/a/b".to_string()));
    match safe_join("/nonexistent-base", "../etc") {
        Err(BundleError::LoadError { reason }) => {
            assert_eq!(reason, "Subpath '../etc' escapes base directory '/nonexistent-base'")
        },
        _ => panic!("expected a load error"),
    }
}

#[test]
fn handlers_take_their_kinds() {
    let git = parse_uri("git+https://github.com/org/repo@v1");
    let http = parse_uri("https://example.com/b.yaml");
    let zip = parse_uri("zip+https://example.com/a.zip");
    let file = parse_uri("/tmp/x");
    let f = FileSourceHandler::with_base_path("/base");
    assert!(SourceHandler::can_handle(&f, &file));
    assert!(!SourceHandler::can_handle(&f, &git));
    assert!(SourceHandler::can_handle(&GitSourceHandler::new(), &git));
    assert!(SourceHandler::can_handle(&HttpSourceHandler::new(), &http));
    assert!(!SourceHandler::can_handle(&HttpSourceHandler::new(), &git));
    assert!(SourceHandler::can_handle(&ZipSourceHandler::new(), &zip));
}

#[test]
fn git_urls_and_cache_paths() {
    let p = parse_uri("git+https://github.com/org/repo@v1");
    assert_eq!(GitSourceHandler::build_git_url(&p), "https://github.com/org/repo");
    let key = &sha256_hex_of("https://github.com/org/repo@v1")[..16];
    assert_eq!(GitSourceHandler::get_cache_path(&p, "/c"), format!("/c/repo-{}", key));
    let p = parse_uri("git+https://github.com/org/repo/");
    let key = &sha256_hex_of("https://github.com/org/repo/@HEAD")[..16];
    assert_eq!(GitSourceHandler::get_cache_path(&p, "/c"), format!("/c/repo-{}", key));
}

#[test]
fn http_urls_and_cache_files() {
    let p = parse_uri("https://example.com/dir/b.yaml");
    let url = HttpSourceHandler::build_url(&p);
    assert_eq!(url, "https://example.com/dir/b.yaml");
    let key = &sha256_hex_of(&url)[..16];
    assert_eq!(HttpSourceHandler::cached_file_path(&url, &p, "/c"), format!("/c/b.yaml-{}", key));
    assert_eq!(HttpSourceHandler::meta_path("/c/f"), "/c/f.meta.json");
    let p = parse_uri("https://example.com");
    let url = HttpSourceHandler::build_url(&p);
    let key = &sha256_hex_of(&url)[..16];
    assert_eq!(HttpSourceHandler::cached_file_path(&url, &p, "/c"), format!("/c/download-{}", key));
}

#[test]
fn conditional_headers_from_metadata() {
    let meta = JsonValue::Object(vec![
        ("etag".to_string(), JsonValue::String("\"abc\"".to_string())),
        ("last_modified".to_string(), JsonValue::String(String::new())),
    ]);
    let (etag, lm) = HttpSourceHandler::conditional_headers(Some(&meta));
    assert_eq!(etag, Some("\"abc\"".to_string()));
    assert_eq!(lm, None);
    assert_eq!(HttpSourceHandler::conditional_headers(None), (None, None));
}

#[test]
fn head_request_outcomes() {
    let s = HttpSourceHandler::head_status("u", false, None, HeadOutcome::TimedOut);
    assert_eq!(s.summary, "Not cached");
    assert_eq!(s.has_update, None);
    let s = HttpSourceHandler::head_status("u", true, Some("t".to_string()), HeadOutcome::Answered(304));
    assert_eq!(s.has_update, Some(false));
    assert_eq!(s.summary, "Up to date (304 Not Modified)");
    let s = HttpSourceHandler::head_status("u", true, None, HeadOutcome::Answered(200));
    assert_eq!(s.has_update, Some(true));
    assert_eq!(s.summary, "Update available (HTTP 200)");
    let s = HttpSourceHandler::head_status("u", true, None, HeadOutcome::Answered(500));
    assert_eq!(s.has_update, None);
    assert_eq!(s.error, Some("HEAD request returned HTTP 500".to_string()));
    assert_eq!(s.summary, "Unknown (HEAD request returned HTTP 500)");
    let s = HttpSourceHandler::head_status("u", true, None, HeadOutcome::Failed("boom".to_string()));
    assert_eq!(s.error, Some("HEAD request failed: boom".to_string()));
}

#[test]
fn resolving_with_a_subpath() {
    let r = HttpSourceHandler::resolve_with_subpath("/c/f".to_string(), "").ok().unwrap();
    assert_eq!(r.active_path, "/c/f");
    assert_eq!(r.source_root, "/c/f");
    match HttpSourceHandler::resolve_with_subpath("/nonexistent-cache/f".to_string(), "sub") {
        Err(BundleError::NotFound { uri }) => assert_eq!(uri, "Subpath not found: sub"),
        _ => panic!("expected not found"),
    }
}

#[test]
fn zip_layouts() {
    let p = parse_uri("zip+https://example.com/pkg/a.zip");
    let l = ZipSourceHandler::layout(&p, "/c");
    assert_eq!(l.zip_path, None);
    assert_eq!(l.source_uri, "https://example.com/pkg/a.zip");
    let p = parse_uri("zip+file:///tmp/b.zip");
    let l = ZipSourceHandler::layout(&p, "/c");
    assert_eq!(l.zip_path, Some("/tmp/b.zip".to_string()));
    assert_eq!(l.source_uri, "/tmp/b.zip");
    assert!(l.extract_path.starts_with("/c/b-"));
}

#[test]
fn limits() {
    assert_eq!(MAX_DOWNLOAD_BYTES, 100 * 1024 * 1024);
    assert_eq!(HTTP_DOWNLOAD_TIMEOUT_SECS, 120);
}

#[test]
fn bundle_status_summaries() {
    let st = BundleStatus {
        bundle_name: "b".to_string(),
        bundle_source: None,
        sources: vec![status(Some(true)), status(Some(false)), status(None)],
    };
    assert!(st.has_updates());
    assert_eq!(st.updateable_sources().len(), 1);
    assert_eq!(st.up_to_date_sources().len(), 1);
    assert_eq!(st.unknown_sources().len(), 1);
    assert_eq!(st.summary(), "1 update(s) available (1 up to date, 1 unknown)");
    let st = BundleStatus { bundle_name: "b".to_string(), bundle_source: None, sources: vec![status(Some(false)), status(None)] };
    assert_eq!(st.summary(), "Up to date (1 source(s) could not be checked)");
    let st = BundleStatus { bundle_name: "b".to_string(), bundle_source: None, sources: vec![status(Some(false))] };
    assert!(!st.has_updates());
    assert_eq!(st.summary(), "All 1 source(s) up to date");
}

#[test]
fn file_source_outcome_follows_presence() {
    let ok = file_source_result("/r".to_string(), "/r/sub".to_string(), true).unwrap();
    assert_eq!(ok.source_root, "/r");
    assert_eq!(ok.active_path, "/r/sub");
    match file_source_result("/r".to_string(), "/r/sub".to_string(), false) {
        Err(BundleError::NotFound { uri }) => assert_eq!(uri, "File not found: /r/sub"),
        _ => panic!("expected NotFound"),
    }
}

#[test]
fn missing_file_source_is_not_found() {
    let h = FileSourceHandler::with_base_path("/nonexistent-base-dir-xyz");
    let p = parse_uri("./missing.yaml");
    match h.resolve(&p) {
        Err(BundleError::NotFound { uri }) => assert_eq!(uri, "File not found: /nonexistent-base-dir-xyz/./missing.yaml"),
        _ => panic!("expected NotFound"),
    }
}

#[test]
fn clone_completeness_needs_git_and_a_project_or_bundle_file() {
    assert!(GitSourceHandler::clone_is_complete(true, true, true, false));
    assert!(GitSourceHandler::clone_is_complete(true, true, false, true));
    assert!(!GitSourceHandler::clone_is_complete(true, true, false, false));
    assert!(!GitSourceHandler::clone_is_complete(true, false, true, true));
    assert!(!GitSourceHandler::clone_is_complete(false, true, true, true));
    assert!(!GitSourceHandler::verify_clone_integrity("/nonexistent-clone-dir-xyz"));
}

#[test]
fn extraction_source_joins_the_subpath() {
    let p = parse_uri("zip+https://example.com/pkg.zip");
    let l = ZipSourceHandler::layout(&p, "/c");
    let a = ZipSourceHandler::extraction_source(&l, "inner").ok().unwrap();
    assert_eq!(a.source_root, l.extract_path);
    assert_eq!(a.active_path, format!("{}/inner", l.extract_path));
    let b = ZipSourceHandler::extraction_source(&l, "").ok().unwrap();
    assert_eq!(b.active_path, l.extract_path);
    assert!(matches!(ZipSourceHandler::cached(&l, ""), Ok(None)));
}

#[test]
fn subpaths_that_escape_a_cache_are_refused() {
    let p = parse_uri("zip+https://example.com/pkg.zip");
    let l = ZipSourceHandler::layout(&p, "/c");
    match ZipSourceHandler::extraction_source(&l, "../../etc") {
        Err(BundleError::LoadError { reason }) => {
            assert_eq!(reason, format!("Subpath '../../etc' escapes base directory '{}'", l.extract_path))
        },
        _ => panic!("expected the escape error"),
    }
    match GitSourceHandler::resolve_with_subpath("/nonexistent-cache/repo".to_string(), "../other") {
        Err(BundleError::LoadError { reason }) => {
            assert_eq!(reason, "Subpath '../other' escapes base directory '/nonexistent-cache/repo'")
        },
        _ => panic!("expected the escape error"),
    }
    match HttpSourceHandler::resolve_with_subpath("/nonexistent-cache/f".to_string(), "../../x") {
        Err(BundleError::LoadError { .. }) => {},
        _ => panic!("expected the escape error"),
    }
}

#[test]
fn paths_are_compared_canonical_or_normalised() {
    assert_eq!(resolved_for_check("/a/./b/../c", true, Some("/real/c".to_string())), "/real/c");
    assert_eq!(resolved_for_check("/a/./b/../c", true, None), "/a/c");
    assert_eq!(resolved_for_check("/a/./b/../c", false, None), "/a/c");
}

#[test]
fn summary_reports_updates_exactly_when_some() {
    let mut st = BundleStatus { bundle_name: "b".to_string(), bundle_source: None, sources: vec![status(Some(false)), status(None)] };
    assert!(!st.has_updates());
    assert!(!st.summary().contains("update(s) available"));
    st.sources.push(status(Some(true)));
    assert!(st.has_updates());
    assert!(st.summary().starts_with("1 update(s) available"));
}
