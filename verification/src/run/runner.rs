//! Planning a run from the command line: which mode runs, and how the
//! configuration layers (scene defaults, user file, command-line
//! overrides) are stacked on the embedded defaults.
use vstd::prelude::*;
use vstd::string::StringExecFns;
use crate::config::layers::{apply_layer, layered, opt_model};
use crate::config::merge_laws::{law_merge_associative, law_merge_lookup, law_merge_wf, lemma_lookup_wf};
use crate::config::toml_bridge::ConfigLeaf;
use crate::config::tree::{
    assoc_ok, entries_model, lemma_entries_model_concat, lemma_entries_model_single, merge_trees,
    entries_wf, keys_sorted, lookup, merged, overlay, tree_wf, ConfigEntry, ConfigTree, Tree,
};
use crate::config::ontology::ConfigErrorView;
use crate::config::ConfigError;
use crate::io::{find_snapshot_names, snapshot_names, texts_sorted};
use crate::run::cli::Cli;
use crate::text::{lemma_text_lt_irreflexive, text_lt};

verus! {

// ============================================================================
// Run modes
// ============================================================================

/// What a run does, as decided from the command line.
#[derive(Debug, PartialEq, Eq)]
pub enum RunPlan {
    /// Record the snapshots of a directory into a GIF.
    Record { dir: String, output: String },
    /// Play back the snapshots of a directory in the viewer.
    PlaybackViewer { dir: String },
    /// Playback was asked for but the viewer is not built in.
    PlaybackUnavailable,
    /// Simulate with the live viewer (after loading the configuration).
    LiveViewer,
    /// The live viewer was asked for but is not built in (reported after
    /// loading the configuration).
    LiveUnavailable,
    /// Simulate without a viewer (after loading the configuration).
    Headless,
}

/// Route the command-line flags: playback (recording if `--record` is
/// given), else a simulation, live if `--live` is given.
pub fn run(cli: &Cli, vis_enabled: bool) -> (r: RunPlan)
    ensures
        match cli.playback {
            Some(dir) => match cli.record {
                Some(out) => r matches RunPlan::Record { dir: d, output: o } && d@ == dir@
                    && o@ == out@,
                None => if vis_enabled {
                    r matches RunPlan::PlaybackViewer { dir: d } && d@ == dir@
                } else {
                    r is PlaybackUnavailable
                },
            },
            None => if cli.live {
                if vis_enabled {
                    r is LiveViewer
                } else {
                    r is LiveUnavailable
                }
            } else {
                r is Headless
            },
        },
{
    match &cli.playback {
        Some(dir) => match &cli.record {
            Some(out) => RunPlan::Record { dir: dir.clone(), output: out.clone() },
            None => if vis_enabled {
                RunPlan::PlaybackViewer { dir: dir.clone() }
            } else {
                RunPlan::PlaybackUnavailable
            },
        },
        None => if cli.live {
            if vis_enabled {
                RunPlan::LiveViewer
            } else {
                RunPlan::LiveUnavailable
            }
        } else {
            RunPlan::Headless
        },
    }
}

/// Milliseconds each recorded or played-back frame is shown.
pub fn frame_delay_ms(fps: u64) -> (r: u64)
    ensures
        r == 1000int / (if fps == 0 { 1int } else { fps as int }),
{
    let rate = if fps > 1 { fps } else { 1 };
    1000 / rate
}

/// The frames a recording of directory `dir` shows: the snapshot files
/// among the directory's entry `names`, sorted by name; an error when the
/// directory holds none.
pub fn recording_frames(dir: &str, names: Vec<String>) -> (r: Result<Vec<String>, ConfigError>)
    ensures
        snapshot_names(names@).len() == 0 ==> (r matches Err(e) && e@
            == ConfigErrorView::NoSnapshotsFound(dir@)),
        snapshot_names(names@).len() > 0 ==> (r matches Ok(found) && texts_sorted(found@)
            && found@.to_multiset() == snapshot_names(names@).to_multiset()),
{
    let ghost listed = names@;
    let found = find_snapshot_names(names);
    proof {
        vstd::seq_lib::to_multiset_len(found@);
        vstd::seq_lib::to_multiset_len(snapshot_names(listed));
    }
    if found.len() == 0 {
        Err(ConfigError::NoSnapshotsFound(dir.to_string()))
    } else {
        Ok(found)
    }
}

// ============================================================================
// Command-line overrides
// ============================================================================

/// An integer leaf.
pub open spec fn int_leaf(n: usize) -> Tree<ConfigLeaf> {
    Tree::Leaf(ConfigLeaf::Integer(n as i64))
}

/// The override table the command line asks for: `--particles` sets
/// `simulation.n_particles` and `simulation.n_cells`, `--steps` sets
/// `time.n_steps`; no table at all when neither is given.
pub open spec fn cli_override_model(steps: Option<usize>, particles: Option<usize>) -> Option<
    Tree<ConfigLeaf>,
> {
    let sim = match particles {
        Some(p) => seq![
            ("simulation"@, Tree::Table(seq![("n_cells"@, int_leaf(p)), ("n_particles"@, int_leaf(p))])),
        ],
        None => seq![],
    };
    let time = match steps {
        Some(st) => seq![("time"@, Tree::Table(seq![("n_steps"@, int_leaf(st))]))],
        None => seq![],
    };
    if steps is None && particles is None {
        None
    } else {
        Some(Tree::Table(sim + time))
    }
}

fn entry(key: &str, value: ConfigTree<ConfigLeaf>) -> (r: ConfigEntry<ConfigLeaf>)
    ensures
        r.key@ == key@,
        r.value == value,
{
    ConfigEntry { key: String::from_str(key), value }
}

fn push_entry(v: &mut Vec<ConfigEntry<ConfigLeaf>>, e: ConfigEntry<ConfigLeaf>)
    ensures
        entries_model(final(v)@) == entries_model(old(v)@) + seq![(e.key@, e.value.model())],
{
    proof {
        lemma_entries_model_concat(v@, seq![e]);
        lemma_entries_model_single(e);
        assert(v@.push(e) =~= v@ + seq![e]);
    }
    v.push(e);
}

proof fn lemma_one_entry_wf<L>(a: (Seq<char>, Tree<L>))
    requires
        tree_wf(a.1),
    ensures
        keys_sorted(seq![a]),
        entries_wf(seq![a]),
{
    assert(seq![a].drop_first() =~= seq![]);
    assert(entries_wf(seq![a].drop_first()));
}

proof fn lemma_two_entries_wf<L>(a: (Seq<char>, Tree<L>), b: (Seq<char>, Tree<L>))
    requires
        tree_wf(a.1),
        tree_wf(b.1),
        text_lt(a.0, b.0),
    ensures
        keys_sorted(seq![a, b]),
        entries_wf(seq![a, b]),
{
    assert(seq![a, b].drop_first() =~= seq![b]);
    lemma_one_entry_wf(b);
}

proof fn lemma_cli_override_wf(steps: Option<usize>, particles: Option<usize>)
    ensures
        cli_override_model(steps, particles) matches Some(t) ==> tree_wf(t),
{
    reveal_strlit("simulation");
    reveal_strlit("time");
    reveal_strlit("n_cells");
    reveal_strlit("n_particles");
    reveal_strlit("n_steps");
    assert(text_lt("n_cells"@, "n_particles"@)) by {
        reveal_with_fuel(text_lt, 4);
    }
    assert(text_lt("simulation"@, "time"@)) by {
        reveal_with_fuel(text_lt, 2);
    }
    let sim = match particles {
        Some(p) => {
            lemma_two_entries_wf(("n_cells"@, int_leaf(p)), ("n_particles"@, int_leaf(p)));
            seq![
                ("simulation"@, Tree::Table(seq![("n_cells"@, int_leaf(p)), ("n_particles"@, int_leaf(p))])),
            ]
        },
        None => seq![],
    };
    let time = match steps {
        Some(st) => {
            lemma_one_entry_wf(("n_steps"@, int_leaf(st)));
            seq![("time"@, Tree::Table(seq![("n_steps"@, int_leaf(st))]))]
        },
        None => seq![],
    };
    if particles is Some && steps is Some {
        lemma_two_entries_wf(sim[0], time[0]);
        assert(sim + time =~= seq![sim[0], time[0]]);
    } else if particles is Some {
        lemma_one_entry_wf(sim[0]);
        assert(sim + time =~= seq![sim[0]]);
    } else if steps is Some {
        lemma_one_entry_wf(time[0]);
        assert(sim + time =~= seq![time[0]]);
    }
}

/// Build the override table from `--steps` and `--particles`.
pub fn cli_overrides(cli: &Cli) -> (r: Option<ConfigTree<ConfigLeaf>>)
    ensures
        opt_model(r) == cli_override_model(cli.steps, cli.particles),
        r matches Some(t) ==> tree_wf(t.model()),
{
    proof {
        reveal_strlit("simulation");
        reveal_strlit("time");
        reveal_strlit("n_cells");
        reveal_strlit("n_particles");
        reveal_strlit("n_steps");
    }
    if cli.steps.is_none() && cli.particles.is_none() {
        return None;
    }
    let mut top: Vec<ConfigEntry<ConfigLeaf>> = Vec::new();
    let ghost mut sim_m: Seq<(Seq<char>, Tree<ConfigLeaf>)> = seq![];
    assert(entries_model(top@) =~= seq![]);
    if let Some(p) = cli.particles {
        let n = #[verifier::truncate] (p as i64);
        let mut sim: Vec<ConfigEntry<ConfigLeaf>> = Vec::new();
        assert(entries_model(sim@) =~= seq![]);
        push_entry(&mut sim, entry("n_cells", ConfigTree::Leaf(ConfigLeaf::Integer(n))));
        push_entry(&mut sim, entry("n_particles", ConfigTree::Leaf(ConfigLeaf::Integer(n))));
        assert(entries_model(sim@) =~= seq![("n_cells"@, int_leaf(p)), ("n_particles"@, int_leaf(p))]);
        push_entry(&mut top, entry("simulation", ConfigTree::Table(sim)));
        proof {
            sim_m = seq![
                ("simulation"@, Tree::Table(seq![("n_cells"@, int_leaf(p)), ("n_particles"@, int_leaf(p))])),
            ];
            assert(entries_model(top@) =~= sim_m);
        }
    }
    if let Some(st) = cli.steps {
        let n = #[verifier::truncate] (st as i64);
        let mut time: Vec<ConfigEntry<ConfigLeaf>> = Vec::new();
        assert(entries_model(time@) =~= seq![]);
        push_entry(&mut time, entry("n_steps", ConfigTree::Leaf(ConfigLeaf::Integer(n))));
        assert(entries_model(time@) =~= seq![("n_steps"@, int_leaf(st))]);
        push_entry(&mut top, entry("time", ConfigTree::Table(time)));
    }
    let r = ConfigTree::Table(top);
    proof {
        let time_m = match cli.steps {
            Some(st) => seq![("time"@, Tree::Table(seq![("n_steps"@, int_leaf(st))]))],
            None => seq![],
        };
        assert(entries_model(top@) =~= sim_m + time_m);
        lemma_cli_override_wf(cli.steps, cli.particles);
    }
    Some(r)
}

/// The value under `key` when `t` is a table holding it.
pub open spec fn table_get<L>(t: Tree<L>, key: Seq<char>) -> Option<Tree<L>> {
    match t {
        Tree::Table(es) => lookup(es, key),
        Tree::Leaf(_) => None,
    }
}

/// The value under `outer.inner`.
pub open spec fn path_get<L>(t: Tree<L>, outer: Seq<char>, inner: Seq<char>) -> Option<Tree<L>> {
    match table_get(t, outer) {
        Some(x) => table_get(x, inner),
        None => None,
    }
}

proof fn lemma_override_entry<L>(base: Tree<L>, k: Seq<char>, inner: Seq<char>, v: Tree<L>)
    requires
        tree_wf(base),
        base is Table,
        v is Leaf,
        lookup(base->Table_0, k) is Some ==> tree_wf(lookup(base->Table_0, k)->0),
    ensures
        ({
            let got = overlay(lookup(base->Table_0, k), Some(Tree::Table(seq![(inner, v)])));
            got matches Some(x) && table_get(x, inner) == Some(v)
        }),
{
    let es = seq![(inner, v)];
    let src = Tree::Table(es);
    assert(tree_wf(v));
    assert(es.drop_first() =~= seq![]);
    assert(entries_wf(es.drop_first()));
    assert(keys_sorted(es));
    assert(tree_wf(src));
    if let Some(bx) = lookup(base->Table_0, k) {
        if bx is Table {
            law_merge_lookup(bx, src, inner);
        }
    }
}

proof fn lemma_override_pair<L>(base: Tree<L>, k: Seq<char>, a: Seq<char>, b: Seq<char>, v: Tree<L>)
    requires
        tree_wf(base),
        base is Table,
        v is Leaf,
        lookup(base->Table_0, k) is Some ==> tree_wf(lookup(base->Table_0, k)->0),
        text_lt(a, b),
    ensures
        ({
            let got = overlay(lookup(base->Table_0, k), Some(Tree::Table(seq![(a, v), (b, v)])));
            got matches Some(x) && table_get(x, a) == Some(v) && table_get(x, b) == Some(v)
        }),
{
    let es = seq![(a, v), (b, v)];
    let src = Tree::Table(es);
    lemma_text_lt_irreflexive(a);
    assert(a != b);
    assert(es.drop_first() =~= seq![(b, v)]);
    assert(es.drop_first().drop_first() =~= seq![]);
    assert(lookup(es.drop_first(), b) == Some(v));
    assert(lookup(es, a) == Some(v));
    assert(lookup(es, b) == Some(v));
    assert(tree_wf(v));
    assert(entries_wf(es.drop_first().drop_first()));
    assert(entries_wf(es.drop_first()));
    assert(keys_sorted(es));
    assert(tree_wf(src));
    if let Some(bx) = lookup(base->Table_0, k) {
        if bx is Table {
            law_merge_lookup(bx, src, a);
            law_merge_lookup(bx, src, b);
        }
    }
}

/// The command-line overrides win over whatever table they are merged
/// onto: `--steps n` puts `n` at `time.n_steps`, `--particles p` puts `p`
/// at `simulation.n_cells` and `simulation.n_particles`, and every other
/// top-level key keeps what the base holds.
pub proof fn law_cli_overrides_win(base: Tree<ConfigLeaf>, steps: Option<usize>, particles: Option<usize>)
    requires
        tree_wf(base),
        base is Table,
        steps is Some || particles is Some,
    ensures
        ({
            let m = merged(base, cli_override_model(steps, particles)->0);
            &&& steps matches Some(n) ==> path_get(m, "time"@, "n_steps"@) == Some(int_leaf(n))
            &&& particles matches Some(p) ==> path_get(m, "simulation"@, "n_cells"@) == Some(
                int_leaf(p),
            ) && path_get(m, "simulation"@, "n_particles"@) == Some(int_leaf(p))
            &&& forall|k: Seq<char>|
                k != "time"@ && k != "simulation"@ ==> #[trigger] table_get(m, k) == table_get(
                    base,
                    k,
                )
        }),
{
    reveal_strlit("simulation");
    reveal_strlit("time");
    reveal_strlit("n_cells");
    reveal_strlit("n_particles");
    reveal_strlit("n_steps");
    lemma_cli_override_wf(steps, particles);
    assert(text_lt("n_cells"@, "n_particles"@)) by {
        reveal_with_fuel(text_lt, 4);
    }
    let o = cli_override_model(steps, particles)->0;
    let m = merged(base, o);
    let bt = base->Table_0;
    let ot = o->Table_0;
    let sim_e = match particles {
        Some(p) => ("simulation"@, Tree::Table(seq![("n_cells"@, int_leaf(p)), ("n_particles"@, int_leaf(p))])),
        None => ("simulation"@, Tree::Table(seq![])),
    };
    let time_e = match steps {
        Some(n) => ("time"@, Tree::Table(seq![("n_steps"@, int_leaf(n))])),
        None => ("time"@, Tree::Table(seq![])),
    };
    assert("simulation"@.len() != "time"@.len());
    if particles is Some && steps is Some {
        assert(ot =~= seq![sim_e, time_e]);
        assert(ot.drop_first() =~= seq![time_e]);
        assert(ot.drop_first().drop_first() =~= seq![]);
    } else if particles is Some {
        assert(ot =~= seq![sim_e]);
        assert(ot.drop_first() =~= seq![]);
    } else {
        assert(ot =~= seq![time_e]);
        assert(ot.drop_first() =~= seq![]);
    }
    assert forall|k: Seq<char>|
        k != "time"@ && k != "simulation"@ implies #[trigger] table_get(m, k) == table_get(
            base,
            k,
        ) by {
        law_merge_lookup(base, o, k);
        assert(k != sim_e.0 && k != time_e.0);
        if particles is Some && steps is Some {
            assert(lookup(ot.drop_first().drop_first(), k) is None);
            assert(lookup(ot.drop_first(), k) is None);
        } else {
            assert(lookup(ot.drop_first(), k) is None);
        }
        assert(lookup(ot, k) is None);
    }
    if let Some(n) = steps {
        law_merge_lookup(base, o, "time"@);
        if particles is Some {
            assert(lookup(ot.drop_first(), "time"@) == Some(time_e.1));
        }
        assert(lookup(ot, "time"@) == Some(time_e.1));
        if lookup(bt, "time"@) is Some {
            lemma_lookup_wf(bt, "time"@);
        }
        lemma_override_entry(base, "time"@, "n_steps"@, int_leaf(n));
    }
    if let Some(p) = particles {
        law_merge_lookup(base, o, "simulation"@);
        assert(lookup(ot, "simulation"@) == Some(sim_e.1));
        if lookup(bt, "simulation"@) is Some {
            lemma_lookup_wf(bt, "simulation"@);
        }
        lemma_override_pair(base, "simulation"@, "n_cells"@, "n_particles"@, int_leaf(p));
    }
}

// ============================================================================
// Four-tier layering
// ============================================================================

/// How the tiers are handed to the configuration builder: with both a
/// scene and a user file, they (and the command line overrides) are
/// merged into one file layer; otherwise the present one of them is the
/// file layer and the command line overrides are the override layer.
pub open spec fn planned_tiers<L>(
    scene: Option<Tree<L>>,
    file: Option<Tree<L>>,
    programmatic: Option<Tree<L>>,
) -> (Option<Tree<L>>, Option<Tree<L>>) {
    match scene {
        Some(s) => match file {
            Some(f) => (Some(apply_layer(merged(s, f), programmatic)), None),
            None => (Some(s), programmatic),
        },
        None => (file, programmatic),
    }
}

/// Arrange the scene defaults, the user's file and the command-line
/// overrides into the file and override layers of the builder.
pub fn combine_tiers<L>(
    scene: Option<ConfigTree<L>>,
    file: Option<ConfigTree<L>>,
    programmatic: Option<ConfigTree<L>>,
) -> (r: (Option<ConfigTree<L>>, Option<ConfigTree<L>>))
    ensures
        (opt_model(r.0), opt_model(r.1)) == planned_tiers(
            opt_model(scene),
            opt_model(file),
            opt_model(programmatic),
        ),
{
    match scene {
        Some(s) => match file {
            Some(f) => {
                let combined = merge_trees(s, f);
                let combined = match programmatic {
                    Some(p) => merge_trees(combined, p),
                    None => combined,
                };
                (Some(combined), None)
            },
            None => (Some(s), programmatic),
        },
        None => (file, programmatic),
    }
}

/// The four tiers stack in order: global defaults, then scene defaults,
/// then the user's file, then the command-line overrides, each merged on
/// top of the ones before. Without a scene or without a file the plan
/// stacks them exactly so. With both, scene and file (and the overrides)
/// are combined before meeting the defaults, which regroups the merges:
/// without overrides the result is the stacked one exactly when
/// `assoc_ok(defaults, scene, file)`; with overrides and that condition,
/// exactly when `assoc_ok(defaults, scene ⊕ file, overrides)`.
pub proof fn law_four_tier_merge<L>(
    defaults: Tree<L>,
    scene: Option<Tree<L>>,
    file: Option<Tree<L>>,
    programmatic: Option<Tree<L>>,
)
    requires
        tree_wf(defaults),
        scene matches Some(s) ==> tree_wf(s),
        file matches Some(f) ==> tree_wf(f),
        programmatic matches Some(p) ==> tree_wf(p),
    ensures
        ({
            let combined = layered(
                defaults,
                planned_tiers(scene, file, programmatic).0,
                planned_tiers(scene, file, programmatic).1,
            );
            let stacked = apply_layer(
                apply_layer(apply_layer(defaults, scene), file),
                programmatic,
            );
            match scene {
                Some(s) => match file {
                    Some(f) => match programmatic {
                        None => (combined == stacked <==> assoc_ok(defaults, s, f)),
                        Some(p) => assoc_ok(defaults, s, f) ==> (combined == stacked <==> assoc_ok(
                            defaults,
                            merged(s, f),
                            p,
                        )),
                    },
                    None => combined == stacked,
                },
                None => combined == stacked,
            }
        }),
{
    if let Some(s) = scene {
        if let Some(f) = file {
            law_merge_associative(defaults, s, f);
            if let Some(p) = programmatic {
                law_merge_wf(s, f);
                law_merge_associative(defaults, merged(s, f), p);
            }
        }
    }
}

} // verus!
