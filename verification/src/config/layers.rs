//! Building a configuration from layered trees: embedded defaults, an
//! optional configuration file and optional overrides, each merged on
//! top of the previous ones.
use vstd::prelude::*;
use crate::config::tree::{merge_trees, merged, ConfigTree, Tree};

verus! {

/// The model of an optional tree.
pub open spec fn opt_model<L>(t: Option<ConfigTree<L>>) -> Option<Tree<L>> {
    match t {
        Some(x) => Some(x.model()),
        None => None,
    }
}

/// Merge an optional layer on top of `t`.
pub open spec fn apply_layer<L>(t: Tree<L>, layer: Option<Tree<L>>) -> Tree<L> {
    match layer {
        Some(x) => merged(t, x),
        None => t,
    }
}

/// Defaults, then the configuration file, then the overrides.
pub open spec fn layered<L>(
    defaults: Tree<L>,
    config_file: Option<Tree<L>>,
    overrides: Option<Tree<L>>,
) -> Tree<L> {
    apply_layer(apply_layer(defaults, config_file), overrides)
}

/// Merge `layer` on top of `base` when it is present.
pub fn merge_optional<L>(base: ConfigTree<L>, layer: Option<ConfigTree<L>>) -> (r: ConfigTree<L>)
    ensures
        r.model() == apply_layer(base.model(), opt_model(layer)),
{
    match layer {
        Some(x) => merge_trees(base, x),
        None => base,
    }
}

/// Build the configuration tree from the defaults with optional
/// overrides: the `config_file` layer is applied first, then
/// `overrides`, both deep-merged so that only the fields being changed
/// need to appear.
pub fn merge_layers<L>(
    defaults: ConfigTree<L>,
    config_file: Option<ConfigTree<L>>,
    overrides: Option<ConfigTree<L>>,
) -> (r: ConfigTree<L>)
    ensures
        r.model() == layered(defaults.model(), opt_model(config_file), opt_model(overrides)),
{
    let with_file = merge_optional(defaults, config_file);
    merge_optional(with_file, overrides)
}

} // verus!
