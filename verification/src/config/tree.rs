//! Layered configuration trees and their deep merge.
//!
//! A configuration is a tree whose tables map keys to sub-trees and whose
//! leaves carry opaque values. Tables keep their entries in strictly
//! increasing key order, so two tables with the same entries are equal.
//! Merging a source tree into a base tree overwrites the base's leaves
//! with the source's, descends into keys where both sides hold tables, and
//! adds keys that only the source has; keys only the base has stay put.
use vstd::prelude::*;
use crate::text::{
    compare_text, lemma_text_lt_asymmetric, lemma_text_lt_irreflexive, text_lt, TextOrder,
};

verus! {

// ============================================================================
// Mathematical model
// ============================================================================

/// Mathematical model of a configuration tree.
pub enum Tree<L> {
    Leaf(L),
    Table(Seq<(Seq<char>, Tree<L>)>),
}

/// Keys strictly increase along the entries.
pub open spec fn keys_sorted<L>(es: Seq<(Seq<char>, Tree<L>)>) -> bool {
    forall|i: int, j: int| #![trigger es[i], es[j]] 0 <= i < j < es.len() ==> text_lt(es[i].0, es[j].0)
}

/// Every key of the entries lies strictly above `x`.
pub open spec fn keys_above<L>(es: Seq<(Seq<char>, Tree<L>)>, x: Seq<char>) -> bool {
    forall|i: int| #![trigger es[i]] 0 <= i < es.len() ==> text_lt(x, es[i].0)
}

/// Every table in the tree, at every depth, has strictly sorted keys.
pub open spec fn tree_wf<L>(t: Tree<L>) -> bool
    decreases t,
{
    match t {
        Tree::Leaf(_) => true,
        Tree::Table(es) => keys_sorted(es) && entries_wf(es),
    }
}

/// Every value of the entries is a well-formed tree.
pub open spec fn entries_wf<L>(es: Seq<(Seq<char>, Tree<L>)>) -> bool
    decreases es,
{
    if es.len() == 0 {
        true
    } else {
        tree_wf(es[0].1) && entries_wf(es.drop_first())
    }
}

/// Every leaf of the tree, at every depth, satisfies `p`.
pub open spec fn leaves_all<L>(t: Tree<L>, p: spec_fn(L) -> bool) -> bool
    decreases t,
{
    match t {
        Tree::Leaf(l) => p(l),
        Tree::Table(es) => entries_leaves_all(es, p),
    }
}

/// Every leaf of every value of the entries satisfies `p`.
pub open spec fn entries_leaves_all<L>(es: Seq<(Seq<char>, Tree<L>)>, p: spec_fn(L) -> bool) -> bool
    decreases es,
{
    if es.len() == 0 {
        true
    } else {
        leaves_all(es[0].1, p) && entries_leaves_all(es.drop_first(), p)
    }
}

/// The value stored under `k`, if any.
pub open spec fn lookup<L>(es: Seq<(Seq<char>, Tree<L>)>, k: Seq<char>) -> Option<Tree<L>>
    decreases es.len(),
{
    if es.len() == 0 {
        None
    } else if es[0].0 == k {
        Some(es[0].1)
    } else {
        lookup(es.drop_first(), k)
    }
}

/// Merge `source` into `base`. Only a table merges into a table; any
/// other pairing leaves `base` as it is.
pub open spec fn merged<L>(base: Tree<L>, source: Tree<L>) -> Tree<L>
    decreases source, 0nat,
{
    match base {
        Tree::Table(b) => match source {
            Tree::Table(s) => Tree::Table(merge_sorted(b, s)),
            Tree::Leaf(_) => base,
        },
        Tree::Leaf(_) => base,
    }
}

/// Merge two key-sorted entry lists: keys in one list only are kept,
/// and for a shared key the source value wins unless both are tables,
/// which are merged recursively.
pub open spec fn merge_sorted<L>(
    b: Seq<(Seq<char>, Tree<L>)>,
    s: Seq<(Seq<char>, Tree<L>)>,
) -> Seq<(Seq<char>, Tree<L>)>
    decreases s, b.len(),
{
    if s.len() == 0 {
        b
    } else if b.len() == 0 {
        s
    } else if text_lt(b[0].0, s[0].0) {
        seq![b[0]] + merge_sorted(b.drop_first(), s)
    } else if text_lt(s[0].0, b[0].0) {
        seq![s[0]] + merge_sorted(b, s.drop_first())
    } else {
        let v = if b[0].1 is Table && s[0].1 is Table {
            proof {
                assert(decreases_to!(s => s[0]));
            }
            merged(b[0].1, s[0].1)
        } else {
            s[0].1
        };
        seq![(b[0].0, v)] + merge_sorted(b.drop_first(), s.drop_first())
    }
}

/// The value a key holds after merging, given what base and source hold.
pub open spec fn overlay<L>(x: Option<Tree<L>>, y: Option<Tree<L>>) -> Option<Tree<L>> {
    match y {
        None => x,
        Some(yv) => match x {
            Some(xv) => if xv is Table && yv is Table {
                Some(merged(xv, yv))
            } else {
                Some(yv)
            },
            None => Some(yv),
        },
    }
}

/// When regrouping three merges leaves the result unchanged: at every key
/// where `d` and `f` both hold tables, a leaf in `s` must not hide part of
/// `d`'s table that `f` does not restore, and where all three hold tables
/// the same holds one level down.
pub open spec fn assoc_ok<L>(d: Tree<L>, s: Tree<L>, f: Tree<L>) -> bool
    decreases f, 0nat,
{
    match f {
        Tree::Table(ft) => match d {
            Tree::Table(dt) => match s {
                Tree::Table(st) => entries_assoc_ok(dt, st, ft),
                Tree::Leaf(_) => merged(d, f) == d,
            },
            Tree::Leaf(_) => true,
        },
        Tree::Leaf(_) => true,
    }
}

/// `assoc_ok` at every key of the entries `fe` of the outermost source.
pub open spec fn entries_assoc_ok<L>(
    dt: Seq<(Seq<char>, Tree<L>)>,
    st: Seq<(Seq<char>, Tree<L>)>,
    fe: Seq<(Seq<char>, Tree<L>)>,
) -> bool
    decreases fe, 0nat,
{
    if fe.len() == 0 {
        true
    } else {
        key_assoc_ok(lookup(dt, fe[0].0), lookup(st, fe[0].0), fe[0].1) && entries_assoc_ok(
            dt,
            st,
            fe.drop_first(),
        )
    }
}

/// `assoc_ok` for the values one key holds in the three trees.
pub open spec fn key_assoc_ok<L>(dv: Option<Tree<L>>, sv: Option<Tree<L>>, fv: Tree<L>) -> bool
    decreases fv, 1nat,
{
    match dv {
        Some(dx) => match sv {
            Some(sx) => if dx is Table && fv is Table {
                if sx is Table {
                    assoc_ok(dx, sx, fv)
                } else {
                    merged(dx, fv) == fv
                }
            } else {
                true
            },
            None => true,
        },
        None => true,
    }
}

// ============================================================================
// Executable trees
// ============================================================================

/// A configuration tree: a leaf value or a table of keyed sub-trees.
#[derive(Debug, PartialEq)]
pub enum ConfigTree<L> {
    Leaf(L),
    Table(Vec<ConfigEntry<L>>),
}

/// One key of a table and the sub-tree it holds.
#[derive(Debug, PartialEq)]
pub struct ConfigEntry<L> {
    pub key: String,
    pub value: ConfigTree<L>,
}

impl<L> ConfigTree<L> {
    /// The mathematical model of this tree.
    pub open spec fn model(self) -> Tree<L>
        decreases self,
    {
        match self {
            ConfigTree::Leaf(l) => Tree::Leaf(l),
            ConfigTree::Table(v) => Tree::Table(entries_model(v@)),
        }
    }

    /// Whether this tree is a table.
    pub fn is_table(&self) -> (r: bool)
        ensures
            r == (self.model() is Table),
    {
        match self {
            ConfigTree::Table(_) => true,
            ConfigTree::Leaf(_) => false,
        }
    }

    /// An empty table.
    pub fn empty_table() -> (r: ConfigTree<L>)
        ensures
            r.model() == Tree::<L>::Table(seq![]),
            tree_wf(r.model()),
    {
        let v: Vec<ConfigEntry<L>> = Vec::new();
        let r = ConfigTree::Table(v);
        assert(entries_model(v@) =~= seq![]);
        r
    }
}

/// The model of a list of table entries.
pub open spec fn entries_model<L>(es: Seq<ConfigEntry<L>>) -> Seq<(Seq<char>, Tree<L>)>
    decreases es,
{
    if es.len() == 0 {
        seq![]
    } else {
        seq![(es[0].key@, es[0].value.model())] + entries_model(es.drop_first())
    }
}

pub proof fn lemma_entries_model_len<L>(es: Seq<ConfigEntry<L>>)
    ensures
        entries_model(es).len() == es.len(),
    decreases es.len(),
{
    if es.len() > 0 {
        lemma_entries_model_len(es.drop_first());
    }
}

pub proof fn lemma_entries_model_concat<L>(a: Seq<ConfigEntry<L>>, b: Seq<ConfigEntry<L>>)
    ensures
        entries_model(a + b) == entries_model(a) + entries_model(b),
    decreases a.len(),
{
    if a.len() == 0 {
        assert(a + b =~= b);
        assert(entries_model(a) =~= seq![]);
        assert(entries_model(a) + entries_model(b) =~= entries_model(b));
    } else {
        assert((a + b).drop_first() =~= a.drop_first() + b);
        lemma_entries_model_concat(a.drop_first(), b);
        assert((a + b)[0] == a[0]);
        assert(entries_model(a + b) =~= seq![(a[0].key@, a[0].value.model())] + (entries_model(
            a.drop_first(),
        ) + entries_model(b)));
    }
}

pub proof fn lemma_entries_model_single<L>(e: ConfigEntry<L>)
    ensures
        entries_model(seq![e]) == seq![(e.key@, e.value.model())],
{
    assert(seq![e].drop_first() =~= seq![]);
    assert(entries_model(seq![e].drop_first()) =~= seq![]);
    assert(entries_model(seq![e]) =~= seq![(e.key@, e.value.model())]);
}

/// Merge `source` into `base`: tables merge key by key, recursively where
/// both sides hold tables; the source's other values overwrite the
/// base's; if `base` and `source` are not both tables, `base` is returned.
pub fn merge_trees<L>(base: ConfigTree<L>, source: ConfigTree<L>) -> (r: ConfigTree<L>)
    ensures
        r.model() == merged(base.model(), source.model()),
    decreases source,
{
    match base {
        ConfigTree::Table(b) => match source {
            ConfigTree::Table(s) => {
                let m = merge_entries(b, s);
                ConfigTree::Table(m)
            },
            ConfigTree::Leaf(_) => ConfigTree::Table(b),
        },
        ConfigTree::Leaf(l) => ConfigTree::Leaf(l),
    }
}

fn merge_entries<L>(b: Vec<ConfigEntry<L>>, s: Vec<ConfigEntry<L>>) -> (r: Vec<ConfigEntry<L>>)
    ensures
        entries_model(r@) == merge_sorted(entries_model(b@), entries_model(s@)),
    decreases s,
{
    let ghost b0 = b@;
    let ghost s0 = s@;
    let ghost s_orig = s;
    let mut bs = b;
    let mut ss = s;
    let mut out: Vec<ConfigEntry<L>> = Vec::new();
    let ghost mut taken: int = 0;
    proof {
        assert(entries_model(out@) =~= seq![]);
        assert(s0.skip(0) =~= s0);
    }
    while bs.len() > 0 && ss.len() > 0
        invariant
            s0 == s_orig@,
            s_orig == s,
            0 <= taken <= s0.len(),
            ss@ == s0.skip(taken),
            merge_sorted(entries_model(b0), entries_model(s0)) == entries_model(out@)
                + merge_sorted(entries_model(bs@), entries_model(ss@)),
        decreases bs.len() + ss.len(),
    {
        let ghost bm = entries_model(bs@);
        let ghost sm = entries_model(ss@);
        let ghost out_m = entries_model(out@);
        proof {
            lemma_entries_model_len(bs@);
            lemma_entries_model_len(ss@);
            assert(bm[0] == (bs@[0].key@, bs@[0].value.model()));
            assert(sm[0] == (ss@[0].key@, ss@[0].value.model()));
            assert(bs@.drop_first() =~= bs@.remove(0));
            assert(ss@.drop_first() =~= ss@.remove(0));
            assert(bm.drop_first() =~= entries_model(bs@.drop_first()));
            assert(sm.drop_first() =~= entries_model(ss@.drop_first()));
        }
        let ghost at = taken;
        let order = compare_text(bs[0].key.as_str(), ss[0].key.as_str());
        match order {
            TextOrder::Less => {
                let e = bs.remove(0);
                proof {
                    lemma_entries_model_concat(out@, seq![e]);
                    lemma_entries_model_single(e);
                    assert(out@.push(e) =~= out@ + seq![e]);
                }
                out.push(e);
                proof {
                    assert(out_m + (seq![bm[0]] + merge_sorted(bm.drop_first(), sm)) =~= (out_m
                        + seq![bm[0]]) + merge_sorted(bm.drop_first(), sm));
                }
            },
            TextOrder::Greater => {
                let e = ss.remove(0);
                proof {
                    lemma_text_lt_asymmetric(sm[0].0, bm[0].0);
                    lemma_entries_model_concat(out@, seq![e]);
                    lemma_entries_model_single(e);
                    assert(out@.push(e) =~= out@ + seq![e]);
                    taken = taken + 1;
                    assert(ss@ =~= s0.skip(taken));
                }
                out.push(e);
                proof {
                    assert(out_m + (seq![sm[0]] + merge_sorted(bm, sm.drop_first())) =~= (out_m
                        + seq![sm[0]]) + merge_sorted(bm, sm.drop_first()));
                }
            },
            TextOrder::Equal => {
                proof {
                    lemma_text_lt_irreflexive(bm[0].0);
                }
                let be = bs.remove(0);
                let se = ss.remove(0);
                proof {
                    assert(se == s0[taken]);
                    assert(decreases_to!(s_orig => s_orig@));
                    assert(decreases_to!(s_orig@ => s_orig@[taken]));
                    taken = taken + 1;
                    assert(ss@ =~= s0.skip(taken));
                }
                let ConfigEntry { key, value: bv } = be;
                let ConfigEntry { key: _, value: sv } = se;
                proof {
                    assert(decreases_to!(s_orig@[at] => s_orig@[at].value));
                    assert(sv == s_orig@[at].value);
                    assert(decreases_to!(s_orig => sv));
                }
                let v = if bv.is_table() && sv.is_table() {
                    merge_trees(bv, sv)
                } else {
                    sv
                };
                let e = ConfigEntry { key, value: v };
                proof {
                    lemma_entries_model_concat(out@, seq![e]);
                    lemma_entries_model_single(e);
                    assert(out@.push(e) =~= out@ + seq![e]);
                }
                out.push(e);
                proof {
                    let hv = if bm[0].1 is Table && sm[0].1 is Table {
                        merged(bm[0].1, sm[0].1)
                    } else {
                        sm[0].1
                    };
                    assert(e.value.model() == hv);
                    assert(out_m + (seq![(bm[0].0, hv)] + merge_sorted(
                        bm.drop_first(),
                        sm.drop_first(),
                    )) =~= (out_m + seq![(bm[0].0, hv)]) + merge_sorted(
                        bm.drop_first(),
                        sm.drop_first(),
                    ));
                }
            },
        }
    }
    proof {
        lemma_entries_model_len(bs@);
        lemma_entries_model_len(ss@);
        lemma_entries_model_concat(out@, bs@);
        lemma_entries_model_concat(out@ + bs@, ss@);
        if ss@.len() == 0 {
            assert(entries_model(ss@) =~= seq![]);
            assert(entries_model(out@ + bs@) + entries_model(ss@) =~= entries_model(out@ + bs@));
        } else {
            assert(entries_model(bs@) =~= seq![]);
            assert(entries_model(out@) + entries_model(bs@) =~= entries_model(out@));
        }
    }
    out.append(&mut bs);
    out.append(&mut ss);
    out
}

} // verus!
