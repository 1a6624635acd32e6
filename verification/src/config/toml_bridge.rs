//! The boundary between TOML documents and configuration trees.
//!
//! Parsing and the `toml::Value` representation come from the `toml`
//! crate; everything between reading a document and writing one back is
//! the verified tree merge.
use vstd::prelude::*;
use crate::config::layers::{apply_layer, layered, merge_layers, opt_model};
use crate::config::merge_laws::{lemma_merged_leaves_all, lemma_merged_wf};
use crate::config::tree::{leaves_all, merge_trees, merged, tree_wf, ConfigEntry, ConfigTree, Tree};
use crate::config::ConfigError;

verus! {

#[verifier::external_type_specification]
#[verifier::external_body]
pub struct ExTomlValue(toml::Value);

/// A leaf of a configuration tree: an integer, which the library itself
/// writes for command-line overrides, or any other TOML value, carried
/// through unchanged.
#[derive(Debug, PartialEq)]
pub enum ConfigLeaf {
    Integer(i64),
    Value(toml::Value),
}

/// What a TOML value holds, as a configuration tree: a table becomes a
/// table of its entries in key order, an integer becomes
/// `ConfigLeaf::Integer`, and any other value becomes a
/// `ConfigLeaf::Value` leaf holding that value.
pub uninterp spec fn toml_tree(v: toml::Value) -> Tree<ConfigLeaf>;

/// What `toml::from_str::<toml::Value>` makes of a text: the tree the
/// parsed document holds, or the `Display` text of the parse error.
pub uninterp spec fn toml_document(text: Seq<char>) -> Result<Tree<ConfigLeaf>, Seq<char>>;

/// A leaf as a TOML value yields it: an integer, or a value that is
/// neither an integer nor a table.
pub open spec fn canonical_leaf(l: ConfigLeaf) -> bool {
    match l {
        ConfigLeaf::Integer(_) => true,
        ConfigLeaf::Value(x) => toml_tree(x) == Tree::Leaf(ConfigLeaf::Value(x)),
    }
}

/// A tree as a TOML value yields it: tables with strictly sorted keys and
/// canonical leaves.
pub open spec fn canonical(t: Tree<ConfigLeaf>) -> bool {
    tree_wf(t) && leaves_all(t, |l: ConfigLeaf| canonical_leaf(l))
}

/// Calls `toml::from_str::<toml::Value>` and renders a parse error with
/// its `Display` implementation. The outcome depends on the text alone
/// and is named `toml_document`.
#[verifier::external_body]
fn toml_parse(text: &str) -> (r: Result<toml::Value, String>)
    ensures
        match r {
            Ok(v) => toml_document(text@) == Ok::<Tree<ConfigLeaf>, Seq<char>>(toml_tree(v)),
            Err(m) => toml_document(text@) == Err::<Tree<ConfigLeaf>, Seq<char>>(m@),
        },
{
    match toml::from_str::<toml::Value>(text) {
        Ok(v) => Ok(v),
        Err(e) => Err(format!("{e}")),
    }
}

/// Converts a `toml::Value` into a configuration tree, table for table.
/// `toml::map::Map` is a `BTreeMap<String, Value>` (the `preserve_order`
/// feature is off), whose iteration follows `String`'s byte order, which
/// for UTF-8 text is the character order `text_lt`: so every table of the
/// result has strictly sorted keys. Integers become `Integer` leaves; every
/// other non-table value is carried in a `Value` leaf.
#[verifier::external_body]
fn toml_to_tree(v: &toml::Value) -> (r: ConfigTree<ConfigLeaf>)
    ensures
        r.model() == toml_tree(*v),
        canonical(r.model()),
{
    match v {
        toml::Value::Table(t) => ConfigTree::Table(
            t.iter().map(|(k, x)| ConfigEntry { key: k.clone(), value: toml_to_tree(x) }).collect(),
        ),
        toml::Value::Integer(i) => ConfigTree::Leaf(ConfigLeaf::Integer(*i)),
        other => ConfigTree::Leaf(ConfigLeaf::Value(other.clone())),
    }
}

/// Converts a configuration tree back into a `toml::Value`, table for
/// table: a table's entries, whose keys are distinct when they are
/// sorted, become the entries of a `toml::map::Map`, an `Integer` leaf a
/// `toml::Value::Integer`, and a `Value` leaf the value it holds. On a
/// canonical tree this undoes `toml_to_tree`.
#[verifier::external_body]
fn tree_to_toml(t: ConfigTree<ConfigLeaf>) -> (r: toml::Value)
    ensures
        canonical(t.model()) ==> toml_tree(r) == t.model(),
{
    match t {
        ConfigTree::Table(es) => toml::Value::Table(
            es.into_iter().map(|e| (e.key, tree_to_toml(e.value))).collect(),
        ),
        ConfigTree::Leaf(ConfigLeaf::Integer(i)) => toml::Value::Integer(i),
        ConfigTree::Leaf(ConfigLeaf::Value(v)) => v,
    }
}

/// The configuration tree of a parse outcome: the tree the document
/// holds, or a `Parse` error carrying the parser's message.
pub fn config_from_parsed(parsed: Result<toml::Value, String>) -> (r: Result<
    ConfigTree<ConfigLeaf>,
    ConfigError,
>)
    ensures
        match parsed {
            Ok(v) => r matches Ok(t) && t.model() == toml_tree(v) && canonical(t.model()),
            Err(m) => r matches Err(ConfigError::Parse(m2)) && m2@ == m@,
        },
{
    match parsed {
        Ok(v) => Ok(toml_to_tree(&v)),
        Err(m) => Err(ConfigError::Parse(m)),
    }
}

/// Parse a TOML document into a configuration tree.
pub fn parse_config_text(text: &str) -> (r: Result<ConfigTree<ConfigLeaf>, ConfigError>)
    ensures
        match r {
            Ok(t) => toml_document(text@) == Ok::<Tree<ConfigLeaf>, Seq<char>>(t.model())
                && canonical(t.model()),
            Err(e) => e matches ConfigError::Parse(m) && toml_document(text@) == Err::<
                Tree<ConfigLeaf>,
                Seq<char>,
            >(m@),
        },
{
    config_from_parsed(toml_parse(text))
}

/// An optional tree that is canonical when present.
pub open spec fn opt_canonical(t: Option<Tree<ConfigLeaf>>) -> bool {
    match t {
        Some(x) => canonical(x),
        None => true,
    }
}

/// Build the configuration document: the defaults parsed from
/// `defaults_text`, then the configuration file, then the overrides, each
/// deep-merged on top so that only the fields being changed need to
/// appear. Fails exactly when the defaults do not parse.
pub fn build_configuration(
    defaults_text: &str,
    config_file: Option<ConfigTree<ConfigLeaf>>,
    overrides: Option<ConfigTree<ConfigLeaf>>,
) -> (r: Result<toml::Value, ConfigError>)
    ensures
        match toml_document(defaults_text@) {
            Err(m) => r matches Err(ConfigError::Parse(m2)) && m2@ == m,
            Ok(d) => r matches Ok(v) && (opt_canonical(opt_model(config_file)) && opt_canonical(
                opt_model(overrides),
            ) ==> toml_tree(v) == layered(d, opt_model(config_file), opt_model(overrides))),
        },
{
    match parse_config_text(defaults_text) {
        Err(e) => Err(e),
        Ok(defaults) => {
            let ghost d = defaults.model();
            let ghost f = opt_model(config_file);
            let ghost o = opt_model(overrides);
            let m = merge_layers(defaults, config_file, overrides);
            proof {
                if opt_canonical(f) && opt_canonical(o) {
                    let p = |l: ConfigLeaf| canonical_leaf(l);
                    let with_file = apply_layer(d, f);
                    if let Some(x) = f {
                        lemma_merged_wf(d, x);
                        lemma_merged_leaves_all(d, x, p);
                    }
                    if let Some(y) = o {
                        lemma_merged_wf(with_file, y);
                        lemma_merged_leaves_all(with_file, y, p);
                    }
                }
            }
            Ok(tree_to_toml(m))
        },
    }
}

/// Recursively merge `source` into `base`, overwriting leaf values.
pub fn deep_merge_public(base: &mut toml::Value, source: &toml::Value)
    ensures
        toml_tree(*final(base)) == merged(toml_tree(*old(base)), toml_tree(*source)),
        canonical(toml_tree(*old(base))),
        canonical(toml_tree(*source)),
        canonical(toml_tree(*final(base))),
{
    let b = toml_to_tree(&*base);
    let s = toml_to_tree(source);
    let m = merge_trees(b, s);
    proof {
        lemma_merged_wf(b.model(), s.model());
        lemma_merged_leaves_all(b.model(), s.model(), |l: ConfigLeaf| canonical_leaf(l));
    }
    *base = tree_to_toml(m);
}

} // verus!
