//! Laws of the configuration deep merge, proved over the tree model.
use vstd::prelude::*;
use crate::text::{
    lemma_text_lt_irreflexive, lemma_text_lt_total, lemma_text_lt_transitive, text_lt,
};
use crate::config::tree::{
    assoc_ok, entries_assoc_ok, entries_leaves_all, key_assoc_ok, entries_wf, keys_above, keys_sorted,
    leaves_all, lookup, merge_sorted, merged, overlay, tree_wf, Tree,
};

verus! {

// ============================================================================
// Lookup in sorted entry lists
// ============================================================================

proof fn lemma_sorted_tail<L>(es: Seq<(Seq<char>, Tree<L>)>)
    requires
        keys_sorted(es),
        es.len() > 0,
    ensures
        keys_sorted(es.drop_first()),
        keys_above(es.drop_first(), es[0].0),
{
    let t = es.drop_first();
    assert forall|i: int, j: int| #![trigger t[i], t[j]] 0 <= i < j < t.len() implies text_lt(
        t[i].0,
        t[j].0,
    ) by {
        assert(t[i] == es[i + 1] && t[j] == es[j + 1]);
    }
    assert forall|i: int| #![trigger t[i]] 0 <= i < t.len() implies text_lt(es[0].0, t[i].0) by {
        assert(t[i] == es[i + 1]);
    }
}

/// A sorted list lies above anything below its first key.
proof fn lemma_sorted_above_head<L>(es: Seq<(Seq<char>, Tree<L>)>, x: Seq<char>)
    requires
        keys_sorted(es),
        es.len() > 0,
        text_lt(x, es[0].0),
    ensures
        keys_above(es, x),
{
    assert forall|i: int| #![trigger es[i]] 0 <= i < es.len() implies text_lt(x, es[i].0) by {
        if i > 0 {
            assert(text_lt(es[0].0, es[i].0));
            lemma_text_lt_transitive(x, es[0].0, es[i].0);
        }
    }
}

pub proof fn lemma_lookup_none_above<L>(es: Seq<(Seq<char>, Tree<L>)>, k: Seq<char>)
    requires
        keys_above(es, k),
    ensures
        lookup(es, k) is None,
    decreases es.len(),
{
    if es.len() > 0 {
        assert(text_lt(k, es[0].0));
        lemma_text_lt_irreflexive(k);
        let t = es.drop_first();
        assert forall|i: int| #![trigger t[i]] 0 <= i < t.len() implies text_lt(k, t[i].0) by {
            assert(t[i] == es[i + 1]);
        }
        lemma_lookup_none_above(t, k);
    }
}

pub proof fn lemma_lookup_index<L>(es: Seq<(Seq<char>, Tree<L>)>, i: int)
    requires
        keys_sorted(es),
        0 <= i < es.len(),
    ensures
        lookup(es, es[i].0) == Some(es[i].1),
    decreases es.len(),
{
    if i > 0 {
        assert(text_lt(es[0].0, es[i].0));
        lemma_text_lt_irreflexive(es[i].0);
        lemma_sorted_tail(es);
        assert(es.drop_first()[i - 1] == es[i]);
        lemma_lookup_index(es.drop_first(), i - 1);
    }
}

pub proof fn lemma_lookup_wf<L>(es: Seq<(Seq<char>, Tree<L>)>, k: Seq<char>)
    requires
        entries_wf(es),
        lookup(es, k) is Some,
    ensures
        tree_wf(lookup(es, k).unwrap()),
    decreases es.len(),
{
    if es[0].0 != k {
        lemma_lookup_wf(es.drop_first(), k);
    }
}

/// Two sorted entry lists that agree on every lookup are equal.
pub proof fn lemma_entries_ext<L>(a: Seq<(Seq<char>, Tree<L>)>, c: Seq<(Seq<char>, Tree<L>)>)
    requires
        keys_sorted(a),
        keys_sorted(c),
        forall|k: Seq<char>| lookup(a, k) == lookup(c, k),
    ensures
        a == c,
    decreases a.len() + c.len(),
{
    if a.len() == 0 {
        if c.len() > 0 {
            assert(lookup(c, c[0].0) is Some);
            assert(lookup(a, c[0].0) is None);
        }
        assert(a =~= c);
    } else if c.len() == 0 {
        assert(lookup(a, a[0].0) is Some);
        assert(lookup(c, a[0].0) is None);
    } else {
        let a0 = a[0].0;
        let c0 = c[0].0;
        lemma_text_lt_total(a0, c0);
        if text_lt(a0, c0) {
            lemma_sorted_above_head(c, a0);
            lemma_lookup_none_above(c, a0);
            assert(lookup(a, a0) is Some);
            assert(false);
        } else if text_lt(c0, a0) {
            lemma_sorted_above_head(a, c0);
            lemma_lookup_none_above(a, c0);
            assert(lookup(c, c0) is Some);
            assert(false);
        }
        assert(a0 == c0);
        assert(lookup(a, a0) == Some(a[0].1));
        assert(lookup(c, c0) == Some(c[0].1));
        let at = a.drop_first();
        let ct = c.drop_first();
        lemma_sorted_tail(a);
        lemma_sorted_tail(c);
        assert forall|k: Seq<char>| lookup(at, k) == lookup(ct, k) by {
            if k == a0 {
                lemma_lookup_none_above(at, k);
                lemma_lookup_none_above(ct, k);
            } else {
                assert(lookup(a, k) == lookup(at, k));
                assert(lookup(c, k) == lookup(ct, k));
            }
        }
        lemma_entries_ext(at, ct);
        assert(a =~= seq![a[0]] + at);
        assert(c =~= seq![c[0]] + ct);
    }
}

// ============================================================================
// Shape of a merge
// ============================================================================

proof fn lemma_prepend_sorted<L>(x: (Seq<char>, Tree<L>), rest: Seq<(Seq<char>, Tree<L>)>)
    requires
        keys_sorted(rest),
        keys_above(rest, x.0),
    ensures
        keys_sorted(seq![x] + rest),
        (seq![x] + rest)[0] == x,
        (seq![x] + rest).drop_first() == rest,
{
    let r = seq![x] + rest;
    assert(r.drop_first() =~= rest);
    assert forall|i: int, j: int| #![trigger r[i], r[j]] 0 <= i < j < r.len() implies text_lt(
        r[i].0,
        r[j].0,
    ) by {
        assert(r[j] == rest[j - 1]);
        if i > 0 {
            assert(r[i] == rest[i - 1]);
        }
    }
}

proof fn lemma_prepend_above<L>(x: (Seq<char>, Tree<L>), rest: Seq<(Seq<char>, Tree<L>)>, y: Seq<char>)
    requires
        keys_above(rest, y),
        text_lt(y, x.0),
    ensures
        keys_above(seq![x] + rest, y),
{
    let r = seq![x] + rest;
    assert forall|i: int| #![trigger r[i]] 0 <= i < r.len() implies text_lt(y, r[i].0) by {
        if i > 0 {
            assert(r[i] == rest[i - 1]);
        }
    }
}

/// A merge of lists above `x` stays above `x`.
pub proof fn lemma_merge_above<L>(
    b: Seq<(Seq<char>, Tree<L>)>,
    s: Seq<(Seq<char>, Tree<L>)>,
    x: Seq<char>,
)
    requires
        keys_sorted(b),
        keys_sorted(s),
        keys_above(b, x),
        keys_above(s, x),
    ensures
        keys_above(merge_sorted(b, s), x),
    decreases s, b.len(),
{
    if s.len() == 0 || b.len() == 0 {
    } else if text_lt(b[0].0, s[0].0) {
        lemma_sorted_tail(b);
        lemma_merge_above(b.drop_first(), s, x);
        lemma_prepend_above(b[0], merge_sorted(b.drop_first(), s), x);
    } else if text_lt(s[0].0, b[0].0) {
        lemma_sorted_tail(s);
        lemma_merge_above(b, s.drop_first(), x);
        lemma_prepend_above(s[0], merge_sorted(b, s.drop_first()), x);
    } else {
        lemma_sorted_tail(b);
        lemma_sorted_tail(s);
        lemma_merge_above(b.drop_first(), s.drop_first(), x);
        let v = if b[0].1 is Table && s[0].1 is Table {
            merged(b[0].1, s[0].1)
        } else {
            s[0].1
        };
        lemma_prepend_above((b[0].0, v), merge_sorted(b.drop_first(), s.drop_first()), x);
    }
}

/// Merging sorted lists yields a sorted list.
pub proof fn lemma_merge_sorted_keys<L>(b: Seq<(Seq<char>, Tree<L>)>, s: Seq<(Seq<char>, Tree<L>)>)
    requires
        keys_sorted(b),
        keys_sorted(s),
    ensures
        keys_sorted(merge_sorted(b, s)),
    decreases s, b.len(),
{
    if s.len() == 0 || b.len() == 0 {
    } else if text_lt(b[0].0, s[0].0) {
        lemma_sorted_tail(b);
        lemma_sorted_above_head(s, b[0].0);
        lemma_merge_sorted_keys(b.drop_first(), s);
        lemma_merge_above(b.drop_first(), s, b[0].0);
        lemma_prepend_sorted(b[0], merge_sorted(b.drop_first(), s));
    } else if text_lt(s[0].0, b[0].0) {
        lemma_sorted_tail(s);
        lemma_sorted_above_head(b, s[0].0);
        lemma_merge_sorted_keys(b, s.drop_first());
        lemma_merge_above(b, s.drop_first(), s[0].0);
        lemma_prepend_sorted(s[0], merge_sorted(b, s.drop_first()));
    } else {
        lemma_text_lt_total(b[0].0, s[0].0);
        lemma_sorted_tail(b);
        lemma_sorted_tail(s);
        lemma_merge_sorted_keys(b.drop_first(), s.drop_first());
        lemma_merge_above(b.drop_first(), s.drop_first(), b[0].0);
        let v = if b[0].1 is Table && s[0].1 is Table {
            merged(b[0].1, s[0].1)
        } else {
            s[0].1
        };
        lemma_prepend_sorted((b[0].0, v), merge_sorted(b.drop_first(), s.drop_first()));
    }
}

/// What a key holds after a merge of sorted lists.
pub proof fn lemma_merge_lookup<L>(
    b: Seq<(Seq<char>, Tree<L>)>,
    s: Seq<(Seq<char>, Tree<L>)>,
    k: Seq<char>,
)
    requires
        keys_sorted(b),
        keys_sorted(s),
    ensures
        lookup(merge_sorted(b, s), k) == overlay(lookup(b, k), lookup(s, k)),
    decreases s, b.len(),
{
    if s.len() == 0 {
    } else if b.len() == 0 {
    } else if text_lt(b[0].0, s[0].0) {
        lemma_sorted_tail(b);
        lemma_merge_lookup(b.drop_first(), s, k);
        let r = seq![b[0]] + merge_sorted(b.drop_first(), s);
        assert(r.drop_first() =~= merge_sorted(b.drop_first(), s));
        if k == b[0].0 {
            lemma_sorted_above_head(s, k);
            lemma_lookup_none_above(s, k);
        }
    } else if text_lt(s[0].0, b[0].0) {
        lemma_sorted_tail(s);
        lemma_merge_lookup(b, s.drop_first(), k);
        let r = seq![s[0]] + merge_sorted(b, s.drop_first());
        assert(r.drop_first() =~= merge_sorted(b, s.drop_first()));
        if k == s[0].0 {
            lemma_sorted_above_head(b, k);
            lemma_lookup_none_above(b, k);
        }
    } else {
        lemma_text_lt_total(b[0].0, s[0].0);
        lemma_sorted_tail(b);
        lemma_sorted_tail(s);
        lemma_merge_lookup(b.drop_first(), s.drop_first(), k);
        let v = if b[0].1 is Table && s[0].1 is Table {
            merged(b[0].1, s[0].1)
        } else {
            s[0].1
        };
        let r = seq![(b[0].0, v)] + merge_sorted(b.drop_first(), s.drop_first());
        assert(r.drop_first() =~= merge_sorted(b.drop_first(), s.drop_first()));
        if k == b[0].0 {
            lemma_lookup_none_above(b.drop_first(), k);
            lemma_lookup_none_above(s.drop_first(), k);
        }
    }
}

proof fn lemma_entries_wf_prepend<L>(x: (Seq<char>, Tree<L>), rest: Seq<(Seq<char>, Tree<L>)>)
    requires
        tree_wf(x.1),
        entries_wf(rest),
    ensures
        entries_wf(seq![x] + rest),
{
    assert((seq![x] + rest).drop_first() =~= rest);
}

/// Merging well-formed trees yields a well-formed tree.
pub proof fn lemma_merged_wf<L>(base: Tree<L>, source: Tree<L>)
    requires
        tree_wf(base),
        tree_wf(source),
    ensures
        tree_wf(merged(base, source)),
    decreases source, 0nat,
{
    if let Tree::Table(b) = base {
        if let Tree::Table(s) = source {
            lemma_merge_sorted_keys(b, s);
            lemma_merge_entries_wf(b, s);
        }
    }
}

proof fn lemma_merge_entries_wf<L>(b: Seq<(Seq<char>, Tree<L>)>, s: Seq<(Seq<char>, Tree<L>)>)
    requires
        keys_sorted(b),
        keys_sorted(s),
        entries_wf(b),
        entries_wf(s),
    ensures
        entries_wf(merge_sorted(b, s)),
    decreases s, b.len(),
{
    if s.len() == 0 || b.len() == 0 {
    } else if text_lt(b[0].0, s[0].0) {
        lemma_sorted_tail(b);
        lemma_merge_entries_wf(b.drop_first(), s);
        lemma_entries_wf_prepend(b[0], merge_sorted(b.drop_first(), s));
    } else if text_lt(s[0].0, b[0].0) {
        lemma_sorted_tail(s);
        lemma_merge_entries_wf(b, s.drop_first());
        lemma_entries_wf_prepend(s[0], merge_sorted(b, s.drop_first()));
    } else {
        lemma_sorted_tail(b);
        lemma_sorted_tail(s);
        lemma_merge_entries_wf(b.drop_first(), s.drop_first());
        let v = if b[0].1 is Table && s[0].1 is Table {
            assert(decreases_to!(s => s[0]));
            lemma_merged_wf(b[0].1, s[0].1);
            merged(b[0].1, s[0].1)
        } else {
            s[0].1
        };
        lemma_entries_wf_prepend((b[0].0, v), merge_sorted(b.drop_first(), s.drop_first()));
    }
}

/// Merging keeps every leaf from one of the two trees, so a property of
/// all leaves of both holds of all leaves of the result.
pub proof fn lemma_merged_leaves_all<L>(base: Tree<L>, source: Tree<L>, p: spec_fn(L) -> bool)
    requires
        leaves_all(base, p),
        leaves_all(source, p),
    ensures
        leaves_all(merged(base, source), p),
    decreases source, 0nat,
{
    if let Tree::Table(b) = base {
        if let Tree::Table(s) = source {
            lemma_merge_entries_leaves_all(b, s, p);
        }
    }
}

proof fn lemma_entries_leaves_all_prepend<L>(
    x: (Seq<char>, Tree<L>),
    rest: Seq<(Seq<char>, Tree<L>)>,
    p: spec_fn(L) -> bool,
)
    requires
        leaves_all(x.1, p),
        entries_leaves_all(rest, p),
    ensures
        entries_leaves_all(seq![x] + rest, p),
{
    assert((seq![x] + rest).drop_first() =~= rest);
}

proof fn lemma_merge_entries_leaves_all<L>(
    b: Seq<(Seq<char>, Tree<L>)>,
    s: Seq<(Seq<char>, Tree<L>)>,
    p: spec_fn(L) -> bool,
)
    requires
        entries_leaves_all(b, p),
        entries_leaves_all(s, p),
    ensures
        entries_leaves_all(merge_sorted(b, s), p),
    decreases s, b.len(),
{
    if s.len() == 0 || b.len() == 0 {
    } else if text_lt(b[0].0, s[0].0) {
        lemma_merge_entries_leaves_all(b.drop_first(), s, p);
        lemma_entries_leaves_all_prepend(b[0], merge_sorted(b.drop_first(), s), p);
    } else if text_lt(s[0].0, b[0].0) {
        lemma_merge_entries_leaves_all(b, s.drop_first(), p);
        lemma_entries_leaves_all_prepend(s[0], merge_sorted(b, s.drop_first()), p);
    } else {
        lemma_merge_entries_leaves_all(b.drop_first(), s.drop_first(), p);
        let v = if b[0].1 is Table && s[0].1 is Table {
            assert(decreases_to!(s => s[0]));
            lemma_merged_leaves_all(b[0].1, s[0].1, p);
            merged(b[0].1, s[0].1)
        } else {
            s[0].1
        };
        lemma_entries_leaves_all_prepend(
            (b[0].0, v),
            merge_sorted(b.drop_first(), s.drop_first()),
            p,
        );
    }
}

// ============================================================================
// Laws
// ============================================================================

/// The index of the entry that a successful lookup finds.
proof fn lemma_lookup_found<L>(es: Seq<(Seq<char>, Tree<L>)>, k: Seq<char>) -> (i: int)
    requires
        lookup(es, k) is Some,
    ensures
        0 <= i < es.len(),
        es[i].0 == k,
        lookup(es, k) == Some(es[i].1),
    decreases es.len(),
{
    if es[0].0 == k {
        0
    } else {
        let j = lemma_lookup_found(es.drop_first(), k);
        j + 1
    }
}

/// Merging a table into itself, or any tree into itself, changes nothing.
pub proof fn law_merge_with_itself<L>(t: Tree<L>)
    requires
        tree_wf(t),
    ensures
        merged(t, t) == t,
    decreases t, 0nat,
{
    if let Tree::Table(es) = t {
        lemma_merge_self_entries(es);
    }
}

proof fn lemma_merge_self_entries<L>(es: Seq<(Seq<char>, Tree<L>)>)
    requires
        keys_sorted(es),
        entries_wf(es),
    ensures
        merge_sorted(es, es) == es,
    decreases es, es.len(),
{
    if es.len() > 0 {
        lemma_text_lt_irreflexive(es[0].0);
        lemma_sorted_tail(es);
        lemma_merge_self_entries(es.drop_first());
        if es[0].1 is Table {
            assert(decreases_to!(es => es[0]));
            law_merge_with_itself(es[0].1);
        }
        assert(es =~= seq![(es[0].0, es[0].1)] + es.drop_first());
    }
}

/// What every key holds after merging one table into another: keys only
/// the base has keep their value, a source leaf (or a source table over a
/// base leaf) replaces the base's value, and tables on both sides merge.
pub proof fn law_merge_lookup<L>(base: Tree<L>, source: Tree<L>, k: Seq<char>)
    requires
        tree_wf(base),
        tree_wf(source),
        base is Table,
        source is Table,
    ensures
        merged(base, source) is Table,
        lookup(merged(base, source)->Table_0, k) == overlay(
            lookup(base->Table_0, k),
            lookup(source->Table_0, k),
        ),
{
    lemma_merge_lookup(base->Table_0, source->Table_0, k);
}

/// Merge precedence key by key: a key only the base holds keeps the
/// base's value, a key only the source holds takes the source's value,
/// a key both hold takes the source's value unless both values are
/// tables, which are merged in turn.
pub proof fn law_merge_precedence<L>(base: Tree<L>, source: Tree<L>, k: Seq<char>)
    requires
        tree_wf(base),
        tree_wf(source),
        base is Table,
        source is Table,
    ensures
        ({
            let b = lookup(base->Table_0, k);
            let s = lookup(source->Table_0, k);
            let m = lookup(merged(base, source)->Table_0, k);
            &&& merged(base, source) is Table
            &&& s is None ==> m == b
            &&& b is None ==> m == s
            &&& (b is Some && s is Some && !(b->0 is Table && s->0 is Table)) ==> m == s
            &&& (b is Some && s is Some && b->0 is Table && s->0 is Table) ==> m == Some(
                merged(b->0, s->0),
            )
        }),
{
    lemma_merge_lookup(base->Table_0, source->Table_0, k);
}

/// A merge of well-formed trees is well formed.
pub proof fn law_merge_wf<L>(base: Tree<L>, source: Tree<L>)
    requires
        tree_wf(base),
        tree_wf(source),
    ensures
        tree_wf(merged(base, source)),
{
    lemma_merged_wf(base, source);
}

/// Merging the same source a second time changes nothing.
pub proof fn law_merge_idempotent<L>(base: Tree<L>, source: Tree<L>)
    requires
        tree_wf(base),
        tree_wf(source),
    ensures
        merged(merged(base, source), source) == merged(base, source),
    decreases source,
{
    if let Tree::Table(bt) = base {
        if let Tree::Table(st) = source {
            let m = merge_sorted(bt, st);
            lemma_merge_sorted_keys(bt, st);
            lemma_merge_sorted_keys(m, st);
            assert forall|k: Seq<char>| lookup(merge_sorted(m, st), k) == lookup(m, k) by {
                lemma_merge_lookup(m, st, k);
                lemma_merge_lookup(bt, st, k);
                let ls = lookup(st, k);
                let lb = lookup(bt, k);
                if let Some(yv) = ls {
                    let i = lemma_lookup_found(st, k);
                    assert(decreases_to!(source => st));
                    assert(decreases_to!(st => st[i]));
                    lemma_lookup_wf(st, k);
                    if yv is Table {
                        law_merge_with_itself(yv);
                        if let Some(xv) = lb {
                            if xv is Table {
                                lemma_lookup_wf(bt, k);
                                law_merge_idempotent(xv, yv);
                            }
                        }
                    }
                }
            }
            lemma_entries_ext(merge_sorted(m, st), m);
        }
    }
}

proof fn lemma_key_assoc_found<L>(
    dt: Seq<(Seq<char>, Tree<L>)>,
    st: Seq<(Seq<char>, Tree<L>)>,
    fe: Seq<(Seq<char>, Tree<L>)>,
    k: Seq<char>,
)
    requires
        entries_assoc_ok(dt, st, fe),
        lookup(fe, k) is Some,
    ensures
        key_assoc_ok(lookup(dt, k), lookup(st, k), lookup(fe, k).unwrap()),
    decreases fe.len(),
{
    if fe[0].0 != k {
        lemma_key_assoc_found(dt, st, fe.drop_first(), k);
    }
}

/// Regrouping merges: `(d ⊕ s) ⊕ f == d ⊕ (s ⊕ f)` holds of well-formed
/// trees exactly when `assoc_ok(d, s, f)`, which excludes the trees where
/// a leaf of `s` hides part of a table of `d` that `f` does not restore.
pub proof fn law_merge_associative<L>(d: Tree<L>, s: Tree<L>, f: Tree<L>)
    requires
        tree_wf(d),
        tree_wf(s),
        tree_wf(f),
    ensures
        assoc_ok(d, s, f) <==> merged(merged(d, s), f) == merged(d, merged(s, f)),
{
    if assoc_ok(d, s, f) {
        lemma_merge_regroup(d, s, f);
    }
    if merged(merged(d, s), f) == merged(d, merged(s, f)) {
        lemma_regroup_needs_assoc_ok(d, s, f);
    }
}

proof fn lemma_entries_assoc_ok_from_keys<L>(
    dt: Seq<(Seq<char>, Tree<L>)>,
    st: Seq<(Seq<char>, Tree<L>)>,
    fe: Seq<(Seq<char>, Tree<L>)>,
)
    requires
        forall|i: int|
            0 <= i < fe.len() ==> key_assoc_ok(lookup(dt, #[trigger] fe[i].0), lookup(st, fe[i].0), fe[i].1),
    ensures
        entries_assoc_ok(dt, st, fe),
    decreases fe.len(),
{
    if fe.len() > 0 {
        let t = fe.drop_first();
        assert forall|i: int| 0 <= i < t.len() implies key_assoc_ok(
            lookup(dt, #[trigger] t[i].0),
            lookup(st, t[i].0),
            t[i].1,
        ) by {
            assert(t[i] == fe[i + 1]);
        }
        lemma_entries_assoc_ok_from_keys(dt, st, t);
        assert(fe[0] == fe[0]);
    }
}

/// Where regrouping gives the same tree, `assoc_ok` holds.
proof fn lemma_regroup_needs_assoc_ok<L>(d: Tree<L>, s: Tree<L>, f: Tree<L>)
    requires
        tree_wf(d),
        tree_wf(s),
        tree_wf(f),
        merged(merged(d, s), f) == merged(d, merged(s, f)),
    ensures
        assoc_ok(d, s, f),
    decreases f,
{
    if let Tree::Table(dt) = d {
        if let Tree::Table(st) = s {
            if let Tree::Table(ft) = f {
                let ds = merge_sorted(dt, st);
                let sf = merge_sorted(st, ft);
                lemma_merge_sorted_keys(dt, st);
                lemma_merge_sorted_keys(st, ft);
                assert forall|i: int| 0 <= i < ft.len() implies key_assoc_ok(
                    lookup(dt, #[trigger] ft[i].0),
                    lookup(st, ft[i].0),
                    ft[i].1,
                ) by {
                    let k = ft[i].0;
                    lemma_lookup_index(ft, i);
                    lemma_merge_lookup(ds, ft, k);
                    lemma_merge_lookup(dt, st, k);
                    lemma_merge_lookup(dt, sf, k);
                    lemma_merge_lookup(st, ft, k);
                    assert(lookup(merge_sorted(ds, ft), k) == lookup(merge_sorted(dt, sf), k));
                    let fv = ft[i].1;
                    if let Some(dv) = lookup(dt, k) {
                        if let Some(sv) = lookup(st, k) {
                            if dv is Table && fv is Table && sv is Table {
                                assert(decreases_to!(f => ft));
                                assert(decreases_to!(ft => ft[i]));
                                lemma_lookup_wf(dt, k);
                                lemma_lookup_wf(st, k);
                                lemma_lookup_wf(ft, k);
                                assert(merged(dv, sv) is Table);
                                assert(merged(sv, fv) is Table);
                                lemma_regroup_needs_assoc_ok(dv, sv, fv);
                            }
                        }
                    }
                }
                lemma_entries_assoc_ok_from_keys(dt, st, ft);
            }
        }
    }
}

/// Regrouping merges where `assoc_ok` holds.
proof fn lemma_merge_regroup<L>(d: Tree<L>, s: Tree<L>, f: Tree<L>)
    requires
        tree_wf(d),
        tree_wf(s),
        tree_wf(f),
        assoc_ok(d, s, f),
    ensures
        merged(merged(d, s), f) == merged(d, merged(s, f)),
    decreases f,
{
    if let Tree::Table(dt) = d {
        if let Tree::Table(st) = s {
            if let Tree::Table(ft) = f {
                let ds = merge_sorted(dt, st);
                let sf = merge_sorted(st, ft);
                lemma_merge_sorted_keys(dt, st);
                lemma_merge_sorted_keys(st, ft);
                lemma_merge_sorted_keys(ds, ft);
                lemma_merge_sorted_keys(dt, sf);
                assert forall|k: Seq<char>| lookup(merge_sorted(ds, ft), k) == lookup(
                    merge_sorted(dt, sf),
                    k,
                ) by {
                    lemma_merge_lookup(ds, ft, k);
                    lemma_merge_lookup(dt, st, k);
                    lemma_merge_lookup(dt, sf, k);
                    lemma_merge_lookup(st, ft, k);
                    let ld = lookup(dt, k);
                    let ls = lookup(st, k);
                    let lf = lookup(ft, k);
                    if let Some(fv) = lf {
                        if fv is Table {
                            if let Some(dv) = ld {
                                if dv is Table {
                                    if let Some(sv) = ls {
                                        lemma_key_assoc_found(dt, st, ft, k);
                                        if sv is Table {
                                            let i = lemma_lookup_found(ft, k);
                                            assert(decreases_to!(f => ft));
                                            assert(decreases_to!(ft => ft[i]));
                                            lemma_lookup_wf(dt, k);
                                            lemma_lookup_wf(st, k);
                                            lemma_lookup_wf(ft, k);
                                            lemma_merge_regroup(dv, sv, fv);
                                        }
                                    }
                                }
                            }
                        }
                    }
                }
                lemma_entries_ext(merge_sorted(ds, ft), merge_sorted(dt, sf));
            }
        }
    }
}

} // verus!
