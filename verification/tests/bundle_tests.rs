use amplifier_foundation::bundle::Bundle;
use amplifier_foundation::bundle_dict::{is_null_or_empty_mapping, value_type_name};
use amplifier_foundation::error::{BundleError, ValidationResult};
use amplifier_foundation::validator::{validate_bundle, validate_bundle_completeness, validate_bundle_completeness_or_raise, validate_bundle_or_raise, BundleValidator};
use amplifier_foundation::value::{get_str, yaml_equal, YamlNumber, YamlValue};

fn s(x: &str) -> YamlValue {
    YamlValue::String(x.to_string())
}

fn n(x: u64) -> YamlValue {
    YamlValue::Number(YamlNumber::PosInt(x), x.to_string())
}

fn map(es: Vec<(&str, YamlValue)>) -> YamlValue {
    YamlValue::Mapping(es.into_iter().map(|(k, v)| (s(k), v)).collect())
}

fn module(id: &str) -> YamlValue {
    map(vec![("module", s(id)), ("source", s("git+https://example.com/m"))])
}

fn sample_dict() -> YamlValue {
    map(vec![(
        "bundle",
        map(vec![
            ("name", s("demo")),
            ("version", s("2.0.0")),
            ("description", s("A demo")),
            ("session", map(vec![("orchestrator", s("loop")), ("context", s("simple"))])),
            ("providers", YamlValue::Sequence(vec![module("provider-x")])),
            ("tools", YamlValue::Sequence(vec![module("tool-y")])),
        ]),
    )])
}

#[test]
fn new_bundle_defaults() {
    let b = Bundle::new("x");
    assert_eq!(b.name, "x");
    assert_eq!(b.version, "1.0.0");
    assert!(b.providers.is_empty());
    assert!(b.instruction.is_none());
}

#[test]
fn from_dict_reads_metadata_and_modules() {
    let b = Bundle::from_dict(&sample_dict()).ok().unwrap();
    assert_eq!(b.name, "demo");
    assert_eq!(b.version, "2.0.0");
    assert_eq!(b.description, "A demo");
    assert_eq!(b.providers.len(), 1);
    assert_eq!(b.tools.len(), 1);
    assert!(b.hooks.is_empty());
}

#[test]
fn from_dict_defaults_version() {
    let d = map(vec![("bundle", map(vec![("name", s("n"))]))]);
    let b = Bundle::from_dict(&d).ok().unwrap();
    assert_eq!(b.version, "1.0.0");
    let b = Bundle::from_dict(&YamlValue::Null).ok().unwrap();
    assert_eq!(b.name, "");
}

#[test]
fn from_dict_rejects_malformed_module_list() {
    let d = map(vec![("bundle", map(vec![("name", s("b")), ("tools", s("oops"))]))]);
    match Bundle::from_dict(&d) {
        Err(BundleError::LoadError { reason }) => assert_eq!(
            reason,
            "Bundle 'b' has malformed tools: expected list, got str.\nCorrect format: tools: [{module: 'module-id', source: 'git+https://...'}]"
        ),
        _ => panic!("expected a load error"),
    }
}

#[test]
fn from_dict_rejects_malformed_module_item() {
    let d = map(vec![("bundle", map(vec![("name", s("b")), ("hooks", YamlValue::Sequence(vec![s("x")]))]))]);
    match Bundle::from_dict(&d) {
        Err(BundleError::LoadError { reason }) => assert_eq!(
            reason,
            "Bundle 'b' has malformed hooks[0]: expected dict with 'module' and 'source' keys, got str 'x'.\nCorrect format: hooks: [{module: 'module-id', source: 'git+https://...'}]"
        ),
        _ => panic!("expected a load error"),
    }
}

#[test]
fn relative_module_sources_resolve_against_base_path() {
    let d = map(vec![(
        "bundle",
        map(vec![("name", s("b")), ("tools", YamlValue::Sequence(vec![map(vec![("module", s("t")), ("source", s("./mods/t"))])]))]),
    )]);
    let b = Bundle::from_dict_with_base_path(&d, "/base").ok().unwrap();
    let src = get_str(&b.tools[0], "source").unwrap();
    assert!(yaml_equal(src, &s("/base/./mods/t")));
}

#[test]
fn dict_round_trip() {
    let b = Bundle::from_dict(&sample_dict()).ok().unwrap();
    let back = Bundle::from_dict(&b.to_dict()).ok().unwrap();
    assert_eq!(back.name, b.name);
    assert_eq!(back.version, b.version);
    assert_eq!(back.description, b.description);
    assert_eq!(back.providers.len(), b.providers.len());
    assert!(yaml_equal(&back.session, &b.session));
}

#[test]
fn mount_plan_holds_non_empty_sections() {
    let b = Bundle::from_dict(&sample_dict()).ok().unwrap();
    let plan = b.to_mount_plan();
    assert!(get_str(&plan, "session").is_some());
    assert!(get_str(&plan, "providers").is_some());
    assert!(get_str(&plan, "hooks").is_none());
    let empty = Bundle::new("e").to_mount_plan();
    assert!(yaml_equal(&empty, &map(vec![])));
}

#[test]
fn compose_later_replaces_and_merges() {
    let base = Bundle::from_dict(&sample_dict()).ok().unwrap();
    let overlay_dict = map(vec![(
        "bundle",
        map(vec![
            ("name", s("overlay")),
            ("session", map(vec![("context", s("persistent"))])),
            ("tools", YamlValue::Sequence(vec![module("tool-z")])),
        ]),
    )]);
    let overlay = Bundle::from_dict(&overlay_dict).ok().unwrap();
    let c = base.compose(&[&overlay]);
    assert_eq!(c.name, "overlay");
    assert_eq!(c.version, "1.0.0");
    assert_eq!(c.description, "A demo");
    assert_eq!(c.tools.len(), 2);
    assert_eq!(c.providers.len(), 1);
    let expected_session = map(vec![("orchestrator", s("loop")), ("context", s("persistent"))]);
    assert!(yaml_equal(&c.session, &expected_session));
}

#[test]
fn compose_with_nothing_keeps_the_bundle() {
    let base = Bundle::from_dict(&sample_dict()).ok().unwrap();
    let c = base.compose(&[]);
    assert_eq!(c.name, base.name);
    assert_eq!(c.tools.len(), base.tools.len());
    assert!(yaml_equal(&c.session, &base.session));
}

#[test]
fn type_names() {
    assert_eq!(value_type_name(&YamlValue::Null), "null");
    assert_eq!(value_type_name(&s("x")), "str");
    assert_eq!(value_type_name(&n(1)), "number");
    assert_eq!(value_type_name(&YamlValue::Sequence(vec![])), "list");
    assert_eq!(value_type_name(&map(vec![])), "dict");
    assert!(is_null_or_empty_mapping(&YamlValue::Null));
    assert!(is_null_or_empty_mapping(&map(vec![])));
    assert!(!is_null_or_empty_mapping(&map(vec![("a", n(1))])));
}

#[test]
fn validation_of_a_complete_bundle() {
    let b = Bundle::from_dict(&sample_dict()).ok().unwrap();
    assert!(validate_bundle(&b).valid);
    assert!(validate_bundle_completeness(&b).valid);
    assert!(validate_bundle_or_raise(&b).is_ok());
    assert!(validate_bundle_completeness_or_raise(&b).is_ok());
}

#[test]
fn validation_errors_for_an_incomplete_bundle() {
    let b = Bundle::new("");
    let r = BundleValidator::new().validate(&b);
    assert!(!r.valid);
    assert_eq!(r.errors, vec!["Bundle must have a name".to_string()]);
    let r = validate_bundle_completeness(&b);
    assert_eq!(
        r.errors,
        vec![
            "Bundle must have a name".to_string(),
            "Bundle is missing required 'session' section".to_string(),
            "Bundle must have at least one provider".to_string(),
        ]
    );
    match validate_bundle_completeness_or_raise(&b) {
        Err(BundleError::LoadError { reason }) => assert_eq!(
            reason,
            "Bundle incomplete for mounting: Bundle must have a name; Bundle is missing required 'session' section; Bundle must have at least one provider"
        ),
        _ => panic!("expected a load error"),
    }
    match validate_bundle_or_raise(&b) {
        Err(BundleError::LoadError { reason }) => assert_eq!(reason, "Bundle validation failed: Bundle must have a name"),
        _ => panic!("expected a load error"),
    }
}

#[test]
fn validation_result_collects_messages() {
    let mut r = amplifier_foundation::validator::ValidationResult::new();
    assert!(r.valid);
    r.add_warning("w");
    assert!(r.valid);
    r.add_error("e");
    assert!(!r.valid);
    assert_eq!(r.errors, vec!["e".to_string()]);
    assert_eq!(r.warnings, vec!["w".to_string()]);
}

#[test]
fn error_messages() {
    let v = ValidationResult { errors: vec!["a".to_string(), "b".to_string()], warnings: vec![] };
    assert_eq!(v.summary(), "2 errors, 0 warnings");
    assert_eq!(BundleError::NotFound { uri: "u".to_string() }.message(), "bundle not found: u");
    assert_eq!(BundleError::LoadError { reason: "r".to_string() }.message(), "failed to load bundle: r");
    assert_eq!(BundleError::ValidationError(v).message(), "validation failed: 2 errors, 0 warnings");
    assert_eq!(BundleError::DependencyError("d".to_string()).message(), "dependency error: d");
    assert_eq!(BundleError::Io("disk".to_string()).message(), "disk");
    assert_eq!(BundleError::Yaml("bad".to_string()).message(), "bad");
    assert_eq!(BundleError::Http("h".to_string()).message(), "http error: h");
    assert_eq!(BundleError::Git("g".to_string()).message(), "git error: g");
}

#[test]
fn validation_errors_for_module_entries() {
    let mut b = Bundle::new("b");
    b.tools.push(s("x"));
    b.tools.push(map(vec![("config", n(1))]));
    let r = validate_bundle(&b);
    assert_eq!(
        r.errors,
        vec![
            "tools[0]: Must be a dict, got str".to_string(),
            "tools[1]: Missing required 'module' field".to_string(),
            "tools[1]: 'config' must be a dict, got number".to_string(),
        ]
    );
}

#[test]
fn pending_context_resolves_where_it_can() {
    let mut b = Bundle::new("me");
    b.base_path = Some("/me".to_string());
    b.source_base_paths.insert("lib".to_string(), "/lib".to_string());
    b.pending_context.insert("a".to_string(), "lib:docs/a.md".to_string());
    b.pending_context.insert("b".to_string(), "me:b.md".to_string());
    b.pending_context.insert("c".to_string(), "other:c.md".to_string());
    b.resolve_pending_context();
    assert_eq!(b.context.get("a"), Some(&"/lib/docs/a.md".to_string()));
    assert_eq!(b.context.get("b"), Some(&"/me/b.md".to_string()));
    let left: Vec<(String, String)> = b.pending_context.iter().map(|(k, v)| (k.clone(), v.clone())).collect();
    assert_eq!(left, vec![("c".to_string(), "other:c.md".to_string())]);
    assert_eq!(b.resolve_context_path("a"), Some("/lib/docs/a.md".to_string()));
    assert_eq!(b.resolve_context_path("missing-file-for-test.md"), None);
    assert_eq!(b.get_system_instruction(), None);
}
