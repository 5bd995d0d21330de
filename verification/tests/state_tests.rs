use amplifier_foundation::activator::{activation_key, install_command_for, install_failed_error, program_missing_error, ModuleActivator};
use amplifier_foundation::cache::{ContentDeduplicator, DiskCache};
use amplifier_foundation::capabilities::{get_working_dir, set_working_dir, WORKING_DIR_CAPABILITY};
use amplifier_foundation::error::BundleError;
use amplifier_foundation::install_state::{compute_fingerprint, InstallStateManager};
use amplifier_foundation::json::JsonValue;
use amplifier_foundation::serialization::{sanitize_for_json, sanitize_for_json_with_depth, sanitize_message, DEFAULT_MAX_DEPTH};

fn sha256_hex_of(s: &str) -> String {
    format!("{:x}", <sha2::Sha256 as sha2::Digest>::digest(s.as_bytes()))
}

fn js(x: &str) -> JsonValue {
    JsonValue::String(x.to_string())
}

fn obj(es: Vec<(&str, JsonValue)>) -> JsonValue {
    JsonValue::Object(es.into_iter().map(|(k, v)| (k.to_string(), v)).collect())
}

fn show(v: &JsonValue) -> String {
    match v {
        JsonValue::Null => "null".to_string(),
        JsonValue::Bool(b) => b.to_string(),
        JsonValue::Number(n) => n.clone(),
        JsonValue::String(s) => format!("{:?}", s),
        JsonValue::Array(xs) => format!("[{}]", xs.iter().map(show).collect::<Vec<_>>().join(",")),
        JsonValue::Object(es) => format!(
            "{{{}}}",
            es.iter().map(|(k, v)| format!("{:?}:{}", k, show(v))).collect::<Vec<_>>().join(",")
        ),
    }
}

#[test]
fn sanitize_drops_nulls_in_containers() {
    let v = obj(vec![
        ("a", JsonValue::Null),
        ("b", JsonValue::Array(vec![JsonValue::Null, JsonValue::Number("1".to_string())])),
        ("c", js("x")),
    ]);
    assert_eq!(show(&sanitize_for_json(&v)), r#"{"b":[1],"c":"x"}"#);
    assert_eq!(show(&sanitize_for_json(&JsonValue::Null)), "null");
}

#[test]
fn sanitize_cuts_at_the_depth_limit() {
    let v = obj(vec![("a", obj(vec![("b", js("deep"))])), ("k", js("v"))]);
    assert_eq!(show(&sanitize_for_json_with_depth(&v, 2)), r#"{"a":{},"k":"v"}"#);
    assert_eq!(show(&sanitize_for_json_with_depth(&v, 0)), "null");
    assert_eq!(DEFAULT_MAX_DEPTH, 50);
}

#[test]
fn sanitize_message_handles_thinking_and_content_blocks() {
    let m = obj(vec![
        ("role", js("assistant")),
        ("thinking_block", obj(vec![("text", js("hmm")), ("sig", js("s"))])),
        ("content_blocks", JsonValue::Array(vec![js("x")])),
        ("extra", JsonValue::Null),
    ]);
    assert_eq!(show(&sanitize_message(&m)), r#"{"role":"assistant","thinking_text":"hmm"}"#);
    assert_eq!(show(&sanitize_message(&js("plain"))), "{}");
}

#[test]
fn working_dir_round_trip() {
    let mut caps = JsonValue::Null;
    assert_eq!(get_working_dir(&caps), None);
    set_working_dir(&mut caps, "/work");
    assert_eq!(get_working_dir(&caps), Some("/work".to_string()));
    set_working_dir(&mut caps, "/other");
    assert_eq!(get_working_dir(&caps), Some("/other".to_string()));
    assert_eq!(WORKING_DIR_CAPABILITY, "working_dir");
    let mut not_object = js("x");
    set_working_dir(&mut not_object, "/w");
    assert_eq!(show(&not_object), r#""x""#);
}

#[test]
fn cache_file_name_for_a_known_digest() {
    let c = DiskCache::new("/cache");
    assert_eq!(c.cache_key_to_path("abc"), "/cache/abc-ba7816bf8f01cfea414140de5dae2223.json");
}

#[test]
fn disk_cache_file_names() {
    let c = DiskCache::new("/cache");
    let p = c.cache_key_to_path("git+https://x/y");
    let digest = sha256_hex_of("git+https://x/y");
    assert_eq!(p, format!("/cache/git_https___x_y-{}.json", &digest[..32]));
    let long = "a".repeat(40);
    let p = c.cache_key_to_path(&long);
    assert_eq!(p, format!("/cache/{}-{}.json", "a".repeat(30), &sha256_hex_of(&long)[..32]));
}

#[test]
fn deduplicator_reports_repeats() {
    let mut d = ContentDeduplicator::new();
    assert!(!d.is_duplicate("hello"));
    assert!(d.is_duplicate("hello"));
    assert!(!d.is_duplicate("world"));
}

#[test]
fn fingerprints() {
    assert_eq!(compute_fingerprint(None, None), "none");
    let a = compute_fingerprint(Some(&b"x".to_vec()), None);
    let b = compute_fingerprint(Some(&b"y".to_vec()), None);
    assert_ne!(a, b);
    assert_eq!(a, format!("sha256:{}", sha256_hex_of("pyproject.tomlx")));
    let both = compute_fingerprint(Some(&b"p".to_vec()), Some(&b"r".to_vec()));
    assert_eq!(both, format!("sha256:{}", sha256_hex_of("pyproject.tomlprequirements.txtr")));
}

#[test]
fn install_state_mark_and_invalidate() {
    let mut m = InstallStateManager::new("/cache", None);
    assert_eq!(m.state_file, "/cache/install-state.json");
    assert!(m.is_dirty());
    m.mark_saved();
    assert!(!m.is_dirty());
    assert!(!m.is_installed_key("/mods/a", "fp1"));
    m.mark_installed_key("/mods/a", "fp1");
    assert!(m.is_installed_key("/mods/a", "fp1"));
    assert!(!m.is_installed_key("/mods/a", "fp2"));
    assert!(m.is_dirty());
    m.invalidate_key("/mods/a");
    assert!(!m.is_installed_key("/mods/a", "fp1"));
    m.mark_installed_key("/mods/b", "fp");
    m.invalidate_all();
    assert!(!m.is_installed_key("/mods/b", "fp"));
}

#[test]
fn install_state_loads_and_saves_json() {
    let data = obj(vec![
        ("version", JsonValue::Number("1".to_string())),
        ("modules", obj(vec![("/m", obj(vec![("pyproject_hash", js("abc"))]))])),
    ]);
    let m = InstallStateManager::new("/c", Some(&data));
    assert!(!m.is_dirty());
    assert!(m.is_installed_key("/m", "abc"));
    assert_eq!(show(&m.state_json()), r#"{"version":1,"modules":{"/m":{"pyproject_hash":"abc"}}}"#);
    let stale = obj(vec![("version", JsonValue::Number("2".to_string())), ("modules", obj(vec![]))]);
    let m = InstallStateManager::new("/c", Some(&stale));
    assert!(m.is_dirty());
    assert!(!m.is_installed_key("/m", "abc"));
}

#[test]
fn activator_tracks_activations_and_packages() {
    let mut a = ModuleActivator::new(None, true, None, "/home/u/.amplifier", None);
    assert_eq!(a.cache_dir, "/home/u/.amplifier/cache");
    assert_eq!(a.install_state.state_file, "/home/u/.amplifier/cache/install-state.json");
    assert!(!a.is_activated("tool-bash", "git+https://x"));
    a.mark_activated("tool-bash", "git+https://x");
    a.mark_activated("tool-bash", "git+https://x");
    assert!(a.is_activated("tool-bash", "git+https://x"));
    assert_eq!(a.activated, vec!["tool-bash:git+https://x".to_string()]);
    a.track_bundle_package("/b/src");
    a.track_bundle_package("/b/src");
    a.track_bundle_package("/c/src");
    assert_eq!(a.bundle_package_paths(), vec!["/b/src".to_string(), "/c/src".to_string()]);
    assert_eq!(activation_key("n", "u"), "n:u");
    let f = a.finalize();
    assert!(f.is_some());
    a.mark_saved();
    assert!(a.finalize().is_none());
}

#[test]
fn install_commands() {
    assert_eq!(install_command_for("/m", true, true, true), None);
    assert_eq!(
        install_command_for("/m", false, true, true),
        Some(vec!["uv", "pip", "install", "-e", "/m", "--quiet"].into_iter().map(String::from).collect())
    );
    assert_eq!(
        install_command_for("/m", false, false, true),
        Some(vec!["uv", "pip", "install", "-r", "/m/requirements.txt", "--quiet"].into_iter().map(String::from).collect())
    );
    assert_eq!(install_command_for("/m", false, false, false), None);
}

#[test]
fn install_errors() {
    match program_missing_error("uv") {
        BundleError::LoadError { reason } => assert_eq!(reason, "uv is not installed. Please install it first."),
        _ => panic!("expected a load error"),
    }
    let args: Vec<String> = vec!["uv".into(), "pip".into(), "install".into()];
    match install_failed_error(&args, "out", "err") {
        BundleError::LoadError { reason } => assert_eq!(reason, "Install command failed: uv pip install\nstdout: out\nstderr: err"),
        _ => panic!("expected a load error"),
    }
}

#[test]
fn marking_and_invalidating_by_path() {
    let mut m = InstallStateManager::new("/c", None);
    m.mark_saved();
    m.mark_installed("/nonexistent-module-dir-xyz", "fp");
    assert!(m.is_dirty());
    assert!(m.is_installed("/nonexistent-module-dir-xyz", "fp"));
    assert!(!m.is_installed("/nonexistent-module-dir-xyz", "other"));
    m.mark_saved();
    m.invalidate(Some("/nonexistent-module-dir-xyz"));
    assert!(m.is_dirty());
    assert!(!m.is_installed("/nonexistent-module-dir-xyz", "fp"));
    m.mark_saved();
    m.invalidate(Some("/nonexistent-module-dir-xyz"));
    assert!(!m.is_dirty());
    m.invalidate(None);
    assert!(!m.is_dirty());
}

#[test]
fn saved_install_state_reloads_unchanged() {
    let mut m = InstallStateManager::new("/c", None);
    m.mark_installed_key("/m1", "a");
    m.mark_installed_key("/m2", "b");
    let saved = m.state_json();
    let again = InstallStateManager::new("/c", Some(&saved));
    assert!(!again.is_dirty());
    assert!(again.is_installed_key("/m1", "a"));
    assert!(again.is_installed_key("/m2", "b"));
    assert_eq!(show(&again.state_json()), show(&saved));
}

#[test]
fn deduplicator_adds_exactly_the_new_digest() {
    let mut d = ContentDeduplicator::new();
    assert!(!d.is_duplicate("a"));
    assert!(d.is_duplicate("a"));
    assert!(!d.is_duplicate("b"));
    assert!(d.is_duplicate("b"));
    assert!(d.is_duplicate("a"));
}

#[test]
fn sanitizing_twice_changes_nothing() {
    let v = obj(vec![
        ("a", JsonValue::Null),
        ("b", JsonValue::Array(vec![JsonValue::Null, js("x")])),
        ("c", obj(vec![("d", JsonValue::Null)])),
    ]);
    let once = sanitize_for_json(&v);
    let twice = sanitize_for_json(&once);
    assert_eq!(show(&once), show(&twice));
    assert_eq!(show(&once), r#"{"b":["x"],"c":{}}"#);
}

#[test]
fn activations_are_remembered_once() {
    let mut a = ModuleActivator::new(Some("/c"), false, None, "/home", None);
    a.track_bundle_package("/p");
    a.track_bundle_package("/p");
    a.track_bundle_package("/q");
    assert_eq!(a.bundle_package_paths(), vec!["/p".to_string(), "/q".to_string()]);
}

#[test]
fn sanitizing_cuts_at_the_depth_limit() {
    let deep = JsonValue::Array(vec![JsonValue::Array(vec![js("x")])]);
    assert_eq!(show(&sanitize_for_json_with_depth(&deep, 3)), r#"[["x"]]"#);
    assert_eq!(show(&sanitize_for_json_with_depth(&deep, 2)), "[[]]");
    assert_eq!(show(&sanitize_for_json_with_depth(&deep, 1)), "[]");
}
