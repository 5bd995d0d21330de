use amplifier_foundation::debug::debug_string;
use amplifier_foundation::dicts::{first_non_mapping, deep_merge, get_nested, get_nested_with_default, merge_module_lists, set_nested};
use amplifier_foundation::value::{yaml_equal, YamlNumber, YamlValue};

fn s(x: &str) -> YamlValue {
    YamlValue::String(x.to_string())
}

fn n(x: u64) -> YamlValue {
    YamlValue::Number(YamlNumber::PosInt(x), x.to_string())
}

fn map(es: Vec<(&str, YamlValue)>) -> YamlValue {
    YamlValue::Mapping(es.into_iter().map(|(k, v)| (s(k), v)).collect())
}

fn keys(v: &YamlValue) -> Vec<String> {
    match v {
        YamlValue::Mapping(es) => es
            .iter()
            .map(|(k, _)| match k {
                YamlValue::String(t) => t.clone(),
                _ => String::new(),
            })
            .collect(),
        _ => Vec::new(),
    }
}

#[test]
fn deep_merge_child_wins_and_nests() {
    let parent = map(vec![("a", n(1)), ("b", map(vec![("x", n(1)), ("y", n(2))]))]);
    let child = map(vec![("b", map(vec![("y", n(3)), ("z", n(4))])), ("c", n(5))]);
    let merged = deep_merge(&parent, &child);
    let expected = map(vec![
        ("a", n(1)),
        ("b", map(vec![("x", n(1)), ("y", n(3)), ("z", n(4))])),
        ("c", n(5)),
    ]);
    assert!(yaml_equal(&merged, &expected));
    assert_eq!(keys(&merged), vec!["a", "b", "c"]);
}

#[test]
fn deep_merge_sequences_are_replaced() {
    let parent = map(vec![("l", YamlValue::Sequence(vec![n(1), n(2)]))]);
    let child = map(vec![("l", YamlValue::Sequence(vec![n(3)]))]);
    let merged = deep_merge(&parent, &child);
    assert!(yaml_equal(&merged, &child));
}

#[test]
fn deep_merge_non_mapping_child_wins() {
    let parent = map(vec![("a", n(1))]);
    assert!(yaml_equal(&deep_merge(&parent, &s("x")), &s("x")));
    assert!(yaml_equal(&deep_merge(&YamlValue::Null, &parent), &parent));
}

#[test]
fn deep_merge_with_empty_is_identity() {
    let v = map(vec![("a", n(1)), ("b", map(vec![("c", n(2))]))]);
    assert!(yaml_equal(&deep_merge(&v, &map(vec![])), &v));
    assert!(yaml_equal(&deep_merge(&map(vec![]), &v), &v));
}

#[test]
fn module_lists_merge_by_id() {
    let parent = vec![
        map(vec![("module", s("tool-a")), ("config", map(vec![("x", n(1))]))]),
        map(vec![("module", s("tool-b"))]),
    ];
    let child = vec![
        map(vec![("module", s("tool-a")), ("config", map(vec![("y", n(2))]))]),
        map(vec![("module", s("tool-c"))]),
        map(vec![("source", s("no-id"))]),
    ];
    let merged = merge_module_lists(&parent, &child);
    assert_eq!(merged.len(), 3);
    let expected_a = map(vec![("module", s("tool-a")), ("config", map(vec![("x", n(1)), ("y", n(2))]))]);
    assert!(yaml_equal(&merged[0], &expected_a));
    assert!(yaml_equal(&merged[1], &map(vec![("module", s("tool-b"))])));
    assert!(yaml_equal(&merged[2], &map(vec![("module", s("tool-c"))])));
}

#[test]
fn nested_get_and_default() {
    let data = map(vec![("a", map(vec![("b", map(vec![("c", n(7))]))]))]);
    assert!(yaml_equal(&get_nested(&data, &["a", "b", "c"]).unwrap(), &n(7)));
    assert!(get_nested(&data, &["a", "x"]).is_none());
    assert!(get_nested(&data, &["a", "b", "c", "d"]).is_none());
    assert!(yaml_equal(&get_nested(&data, &[]).unwrap(), &data));
    assert!(yaml_equal(&get_nested_with_default(&data, &["zz"], s("d")), &s("d")));
}

#[test]
fn nested_set_creates_mappings_and_get_reads_it_back() {
    let mut data = map(vec![("a", n(1))]);
    set_nested(&mut data, &["a", "b", "c"], s("v"));
    assert!(yaml_equal(&get_nested(&data, &["a", "b", "c"]).unwrap(), &s("v")));
    let mut other = YamlValue::Null;
    set_nested(&mut other, &["k"], n(3));
    assert!(yaml_equal(&other, &map(vec![("k", n(3))])));
    let before = map(vec![("q", n(1))]);
    let mut same = map(vec![("q", n(1))]);
    set_nested(&mut same, &[], n(9));
    assert!(yaml_equal(&same, &before));
}

#[test]
fn debugging_text_of_values() {
    assert_eq!(debug_string(&s("a\u{7f}\"b")), "String(\"a\\u{7f}\\\"b\")");
    assert_eq!(debug_string(&map(vec![("k", n(1))])), "Mapping {\"k\": Number(1)}");
    assert_eq!(debug_string(&YamlValue::Sequence(vec![YamlValue::Null, YamlValue::Bool(true)])), "Sequence [Null, Bool(true)]");
    assert_eq!(
        debug_string(&YamlValue::Tagged("!t".to_string(), Box::new(n(2)))),
        "TaggedValue { tag: !t, value: Number(2) }"
    );
}

#[test]
fn set_nested_refuses_paths_deeper_than_the_limit() {
    let keys: Vec<String> = (0..65).map(|i| format!("k{i}")).collect();
    let path: Vec<&str> = keys.iter().map(|k| k.as_str()).collect();
    let mut data = n(1);
    set_nested(&mut data, &path, s("v"));
    assert!(yaml_equal(&data, &n(1)));
    let mut deep = n(1);
    set_nested(&mut deep, &path[..64], s("v"));
    assert!(yaml_equal(&get_nested(&deep, &path[..64]).unwrap(), &s("v")));
}

#[test]
fn first_malformed_module_config() {
    assert_eq!(first_non_mapping(&[map(vec![("module", s("a"))]), n(1), s("x")]), Some(1));
    assert_eq!(first_non_mapping(&[map(vec![("module", s("a"))])]), None);
}
