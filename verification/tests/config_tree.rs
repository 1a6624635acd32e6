use hermes_rs::config::toml_bridge::{
    build_configuration, config_from_parsed, deep_merge_public, parse_config_text, ConfigLeaf,
};
use hermes_rs::config::tree::{merge_trees, ConfigEntry, ConfigTree};
use hermes_rs::config::layers::{merge_layers, merge_optional};
use hermes_rs::config::ConfigError;

fn leaf(v: i64) -> ConfigTree<i64> {
    ConfigTree::Leaf(v)
}

fn table(entries: Vec<(&str, ConfigTree<i64>)>) -> ConfigTree<i64> {
    ConfigTree::Table(
        entries
            .into_iter()
            .map(|(k, v)| ConfigEntry { key: k.to_string(), value: v })
            .collect(),
    )
}

fn sample_base() -> ConfigTree<i64> {
    table(vec![
        ("output", table(vec![("interval", leaf(1))])),
        ("time", table(vec![("n_steps", leaf(100)), ("stepping", leaf(7))])),
    ])
}

#[test]
fn merge_overrides_leaves_and_keeps_others() {
    let source = table(vec![("time", table(vec![("n_steps", leaf(5))]))]);
    let merged = merge_trees(sample_base(), source);
    let expected = table(vec![
        ("output", table(vec![("interval", leaf(1))])),
        ("time", table(vec![("n_steps", leaf(5)), ("stepping", leaf(7))])),
    ]);
    assert_eq!(merged, expected);
}

#[test]
fn merge_adds_new_keys_in_order() {
    let source = table(vec![("grid", table(vec![("n_cells", leaf(32))])), ("zeta", leaf(9))]);
    let merged = merge_trees(sample_base(), source);
    let expected = table(vec![
        ("grid", table(vec![("n_cells", leaf(32))])),
        ("output", table(vec![("interval", leaf(1))])),
        ("time", table(vec![("n_steps", leaf(100)), ("stepping", leaf(7))])),
        ("zeta", leaf(9)),
    ]);
    assert_eq!(merged, expected);
}

#[test]
fn merge_leaf_replaces_table_and_table_replaces_leaf() {
    let base = table(vec![("a", table(vec![("x", leaf(1))])), ("b", leaf(2))]);
    let source = table(vec![("a", leaf(3)), ("b", table(vec![("y", leaf(4))]))]);
    let merged = merge_trees(base, source);
    let expected = table(vec![("a", leaf(3)), ("b", table(vec![("y", leaf(4))]))]);
    assert_eq!(merged, expected);
}

#[test]
fn merge_into_leaf_or_from_leaf_keeps_base() {
    assert_eq!(merge_trees(leaf(1), sample_base()), leaf(1));
    assert_eq!(merge_trees(sample_base(), leaf(1)), sample_base());
}

#[test]
fn merge_with_empty_table_is_identity() {
    assert_eq!(merge_trees(sample_base(), table(vec![])), sample_base());
    assert_eq!(merge_trees(table(vec![]), sample_base()), sample_base());
}

#[test]
fn merge_with_itself_is_identity() {
    assert_eq!(merge_trees(sample_base(), sample_base()), sample_base());
}

#[test]
fn merge_is_idempotent() {
    let source = || table(vec![("time", table(vec![("n_steps", leaf(5))])), ("new", leaf(1))]);
    let once = merge_trees(sample_base(), source());
    let twice = merge_trees(merge_trees(sample_base(), source()), source());
    assert_eq!(once, twice);
}

#[test]
fn merge_regrouping_agrees_without_hidden_tables() {
    let d = || sample_base();
    let s = || table(vec![("time", table(vec![("n_steps", leaf(5))]))]);
    let f = || table(vec![("time", table(vec![("stepping", leaf(8))])), ("x", leaf(1))]);
    let left = merge_trees(merge_trees(d(), s()), f());
    let right = merge_trees(d(), merge_trees(s(), f()));
    assert_eq!(left, right);
}

#[test]
fn merge_regrouping_differs_when_leaf_hides_table() {
    // d has a table at "time", s replaces it by a leaf, f brings back a table:
    // (d + s) + f keeps only f's table, d + (s + f) merges f's into d's.
    let d = || sample_base();
    let s = || table(vec![("time", leaf(0))]);
    let f = || table(vec![("time", table(vec![("n_steps", leaf(5))]))]);
    let left = merge_trees(merge_trees(d(), s()), f());
    let right = merge_trees(d(), merge_trees(s(), f()));
    assert_ne!(left, right);
}

#[test]
fn merge_layers_applies_file_then_overrides() {
    let file = table(vec![("time", table(vec![("n_steps", leaf(5))]))]);
    let overrides = table(vec![("time", table(vec![("n_steps", leaf(6))]))]);
    let r = merge_layers(sample_base(), Some(file), Some(overrides));
    let expected = table(vec![
        ("output", table(vec![("interval", leaf(1))])),
        ("time", table(vec![("n_steps", leaf(6)), ("stepping", leaf(7))])),
    ]);
    assert_eq!(r, expected);
    assert_eq!(merge_layers(sample_base(), None, None), sample_base());
}

#[test]
fn toml_deep_merge_public() {
    let mut base: toml::Value = toml::from_str("[time]\nn_steps = 100\nstepping = \"log\"\n").unwrap();
    let source: toml::Value = toml::from_str("[time]\nn_steps = 5\n[output]\ninterval = 2\n").unwrap();
    deep_merge_public(&mut base, &source);
    let expected: toml::Value =
        toml::from_str("[time]\nn_steps = 5\nstepping = \"log\"\n[output]\ninterval = 2\n").unwrap();
    assert_eq!(base, expected);
}

#[test]
fn parse_config_text_sorts_and_types_leaves() {
    let t = parse_config_text("zeta = 1\nalpha = \"a\"\n[mid]\nk = 2\n").unwrap();
    match t {
        ConfigTree::Table(es) => {
            let keys: Vec<&str> = es.iter().map(|e| e.key.as_str()).collect();
            assert_eq!(keys, vec!["alpha", "mid", "zeta"]);
            assert_eq!(es[2].value, ConfigTree::Leaf(ConfigLeaf::Integer(1)));
            assert_eq!(
                es[0].value,
                ConfigTree::Leaf(ConfigLeaf::Value(toml::Value::String("a".to_string())))
            );
        }
        _ => panic!("expected a table"),
    }
}

#[test]
fn parse_config_text_reports_errors() {
    let r = parse_config_text("this is = = not toml");
    assert!(matches!(r, Err(ConfigError::Parse(_))));
}

#[test]
fn build_configuration_layers_file_then_overrides() {
    let defaults = "[time]\nn_steps = 100\nstepping = \"log\"\n[output]\ninterval = 1\n";
    let file = parse_config_text("[time]\nn_steps = 20\n[extra]\nname = \"x\"\n").unwrap();
    let overrides = parse_config_text("[time]\nn_steps = 7\n").unwrap();
    let v = build_configuration(defaults, Some(file), Some(overrides)).unwrap();
    let expected: toml::Value = toml::from_str(
        "[time]\nn_steps = 7\nstepping = \"log\"\n[output]\ninterval = 1\n[extra]\nname = \"x\"\n",
    )
    .unwrap();
    assert_eq!(v, expected);
}

#[test]
fn build_configuration_without_layers_is_the_defaults() {
    let defaults = "a = 1\n[b]\nc = \"d\"\n";
    let v = build_configuration(defaults, None, None).unwrap();
    assert_eq!(v, toml::from_str::<toml::Value>(defaults).unwrap());
}

#[test]
fn build_configuration_fails_on_bad_defaults() {
    let r = build_configuration("= broken", None, None);
    assert!(matches!(r, Err(ConfigError::Parse(_))));
}

#[test]
fn config_from_parsed_converts_value_and_error() {
    let v: toml::Value = toml::from_str("k = 3\n").unwrap();
    let t = config_from_parsed(Ok(v)).unwrap();
    assert_eq!(
        t,
        ConfigTree::Table(vec![ConfigEntry {
            key: "k".to_string(),
            value: ConfigTree::Leaf(ConfigLeaf::Integer(3)),
        }])
    );
    let e = config_from_parsed(Err("bad".to_string()));
    assert_eq!(e, Err(ConfigError::Parse("bad".to_string())));
}

#[test]
fn optional_layers_and_table_helpers() {
    assert_eq!(merge_optional(sample_base(), None), sample_base());
    assert_eq!(
        merge_optional(sample_base(), Some(table(vec![("a", leaf(9))]))),
        merge_trees(sample_base(), table(vec![("a", leaf(9))]))
    );
    let empty: ConfigTree<i64> = ConfigTree::empty_table();
    assert!(empty.is_table());
    assert!(!leaf(1).is_table());
    assert_eq!(merge_trees(sample_base(), empty), sample_base());
}
