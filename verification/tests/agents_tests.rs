use amplifier_foundation::agent_meta::{agent_file_metadata, get_agent_meta, is_falsy_value, merge_agent_metadata};
use amplifier_foundation::bundle::Bundle;
use amplifier_foundation::mentions::{format_directory_listing, order_listing, BaseMentionResolver};
use amplifier_foundation::prepared::{build_bundles_for_resolver, combined_instruction, prompt_base_path, system_prompt};
use amplifier_foundation::spawn::ProviderPreference;
use amplifier_foundation::text::trim_whitespace;
use amplifier_foundation::value::{get_str, yaml_equal, YamlNumber, YamlValue};
use std::collections::HashMap;

fn s(x: &str) -> YamlValue {
    YamlValue::String(x.to_string())
}

fn map(es: Vec<(&str, YamlValue)>) -> YamlValue {
    YamlValue::Mapping(es.into_iter().map(|(k, v)| (s(k), v)).collect())
}

fn keys(v: &YamlValue) -> Vec<String> {
    match v {
        YamlValue::Mapping(es) => es
            .iter()
            .map(|(k, _)| match k {
                YamlValue::String(t) => t.clone(),
                _ => String::new(),
            })
            .collect(),
        _ => Vec::new(),
    }
}

#[test]
fn falsy_values() {
    assert!(is_falsy_value(&YamlValue::Null));
    assert!(is_falsy_value(&YamlValue::Bool(false)));
    assert!(!is_falsy_value(&YamlValue::Bool(true)));
    assert!(is_falsy_value(&YamlValue::Number(YamlNumber::PosInt(0), "0".to_string())));
    assert!(!is_falsy_value(&YamlValue::Number(YamlNumber::NegInt(-2), "-2".to_string())));
    assert!(is_falsy_value(&YamlValue::Number(YamlNumber::Float((-0.0f64).to_bits()), "-0.0".to_string())));
    assert!(!is_falsy_value(&YamlValue::Number(YamlNumber::Float(f64::NAN.to_bits()), ".nan".to_string())));
    assert!(is_falsy_value(&s("")));
    assert!(!is_falsy_value(&s("x")));
    assert!(is_falsy_value(&YamlValue::Sequence(vec![])));
    assert!(is_falsy_value(&map(vec![])));
    assert!(!is_falsy_value(&YamlValue::Tagged("!t".to_string(), Box::new(YamlValue::Null))));
}

#[test]
fn merge_fills_only_gaps() {
    let mut config = map(vec![("description", s("")), ("model", s("keep"))]);
    let file = map(vec![("description", s("from file")), ("model", s("other")), ("extra", s("e"))]);
    merge_agent_metadata(&mut config, &file);
    let expected = map(vec![("description", s("from file")), ("model", s("keep")), ("extra", s("e"))]);
    assert!(yaml_equal(&config, &expected));
    assert_eq!(keys(&config), vec!["description", "model", "extra"]);
    let mut not_map = s("x");
    merge_agent_metadata(&mut not_map, &file);
    assert!(yaml_equal(&not_map, &s("x")));
}

#[test]
fn agent_meta_section_choice() {
    let fm = map(vec![("meta", map(vec![("name", s("a"))])), ("tools", YamlValue::Sequence(vec![]))]);
    assert_eq!(get_agent_meta(&fm).unwrap().len(), 1);
    let flat = map(vec![("description", s("d"))]);
    assert_eq!(get_agent_meta(&flat).unwrap().len(), 1);
    let neither = map(vec![("meta", map(vec![])), ("x", s("y"))]);
    assert!(get_agent_meta(&neither).is_none());
    assert!(get_agent_meta(&YamlValue::Null).is_none());
}

#[test]
fn agent_file_metadata_collects_fields() {
    let fm = map(vec![
        ("meta", map(vec![("name", s("helper")), ("description", s("Helps")), ("model", s("m")), ("tools", s("ignored"))])),
        ("tools", YamlValue::Sequence(vec![map(vec![("module", s("tool-x"))])])),
    ]);
    let md = agent_file_metadata(Some(&fm), "\n  You help.  \n", "fallback");
    assert_eq!(keys(&md), vec!["name", "description", "model", "tools", "instruction"]);
    assert!(yaml_equal(get_str(&md, "name").unwrap(), &s("helper")));
    assert!(yaml_equal(get_str(&md, "instruction").unwrap(), &s("You help.")));
    let md = agent_file_metadata(None, "   ", "fallback");
    assert_eq!(keys(&md), vec!["name", "description"]);
    assert!(yaml_equal(get_str(&md, "name").unwrap(), &s("fallback")));
    assert!(yaml_equal(get_str(&md, "description").unwrap(), &s("")));
}

#[test]
fn trimming_whitespace() {
    assert_eq!(trim_whitespace("  a b \t\n"), "a b");
    assert_eq!(trim_whitespace("\u{3000}x\u{2003}"), "x");
    assert_eq!(trim_whitespace("   "), "");
}

#[test]
fn agent_path_candidates() {
    let mut b = Bundle::new("foundation");
    b.base_path = Some("/f".to_string());
    b.source_base_paths.insert("other".to_string(), "/o".to_string());
    assert_eq!(b.agent_path_candidates("helper"), vec!["/f/agents/helper.md"]);
    assert_eq!(b.agent_path_candidates("other:x"), vec!["/o/agents/x.md"]);
    assert_eq!(b.agent_path_candidates("foundation:x"), vec!["/f/agents/x.md"]);
    assert!(b.agent_path_candidates("unknown:x").is_empty());
    assert_eq!(b.resolve_agent_path("unknown:x"), None);
}

#[test]
fn applying_agent_metadata() {
    let mut b = Bundle::new("b");
    b.agents.insert("a".to_string(), map(vec![("description", s(""))]));
    b.apply_agent_metadata("a", &map(vec![("description", s("filled"))]));
    b.apply_agent_metadata("missing", &map(vec![("description", s("x"))]));
    assert_eq!(b.agents.len(), 1);
    assert!(yaml_equal(b.agents.get("a").unwrap(), &map(vec![("description", s("filled"))])));
}

#[test]
fn directory_listing_orders_dirs_first() {
    let entries = vec![
        (true, "b.md".to_string()),
        (false, "Zeta".to_string()),
        (true, "A.txt".to_string()),
        (false, "alpha".to_string()),
    ];
    assert_eq!(
        format_directory_listing("/d", Some(entries)),
        "Directory: /d\n\n  DIR  alpha\n  DIR  Zeta\n  FILE A.txt\n  FILE b.md"
    );
    assert_eq!(format_directory_listing("/d", Some(vec![])), "Directory: /d\n\n  (empty directory)");
    assert_eq!(format_directory_listing("/d", None), "Directory: /d\n\n  (permission denied)");
}

#[test]
fn listing_order_is_stable() {
    let entries = vec![(true, "X".to_string()), (true, "x".to_string()), (true, "a".to_string())];
    assert_eq!(
        order_listing(&entries),
        vec![(true, "a".to_string()), (true, "X".to_string()), (true, "x".to_string())]
    );
}

#[test]
fn mention_resolver_settings() {
    let r = BaseMentionResolver::new();
    assert!(r.base_path.is_none() && r.bundles.is_none());
    let r = BaseMentionResolver::with_base_path("/w".to_string());
    assert_eq!(r.base_path, Some("/w".to_string()));
    let mut m = HashMap::new();
    m.insert("ns".to_string(), "/ns".to_string());
    let r = BaseMentionResolver::with_bundles(m.clone());
    assert_eq!(r.bundles, Some(m));
}

#[test]
fn resolver_bundles_from_a_bundle() {
    let mut b = Bundle::new("self");
    b.base_path = Some("/self".to_string());
    b.source_base_paths.insert("inc".to_string(), "/inc".to_string());
    b.source_base_paths.insert("".to_string(), "/empty".to_string());
    let m = build_bundles_for_resolver(&b);
    let got: Vec<(String, String)> = m.iter().map(|(k, v)| (k.clone(), v.clone())).collect();
    assert_eq!(got, vec![("inc".to_string(), "/inc".to_string()), ("self".to_string(), "/self".to_string())]);
    let nameless = Bundle::new("");
    assert!(build_bundles_for_resolver(&nameless).is_empty());
}

#[test]
fn system_prompt_assembly() {
    let b = Bundle::new("b");
    assert_eq!(prompt_base_path(Some("/s"), &b, Some("/cwd")), "/s");
    assert_eq!(prompt_base_path(None, &b, Some("/cwd")), "/cwd");
    assert_eq!(prompt_base_path(None, &b, None), ".");
    let contexts = vec![
        ("a".to_string(), Some("A body".to_string())),
        ("gone".to_string(), None),
        ("b".to_string(), Some("B".to_string())),
    ];
    assert_eq!(
        combined_instruction(Some("Main"), &contexts),
        "Main\n\n---\n\n# Context: a\n\nA body\n\n---\n\n# Context: b\n\nB"
    );
    assert_eq!(combined_instruction(None, &vec![("a".to_string(), Some("x".to_string()))]), "# Context: a\n\nx");
    assert_eq!(combined_instruction(None, &vec![]), "");
    assert_eq!(system_prompt("<ctx/>", "I"), "<ctx/>\n\n---\n\nI");
    assert_eq!(system_prompt("", "I"), "I");
}

#[test]
fn provider_preference_fields() {
    let p = ProviderPreference::new("openai", "gpt-4o");
    assert_eq!(p.provider, "openai");
    assert_eq!(p.model, "gpt-4o");
}
