//! Snapshot files: their names, recognizing them in a directory listing,
//! ordering them, and the observers that write them.
//!
//! The pipeline's disk writer names a snapshot `snapshot-NNNNN.bin`, the
//! step zero-padded to five digits, and playback collects the names that
//! start with `snapshot-` and end with `.bin`, in name order.
use vstd::prelude::*;
use vstd::string::StringExecFns;
use crate::text::{
    compare_text, ends_with, has_prefix, has_suffix, lemma_padded_decimal_order,
    lemma_text_lt_asymmetric, lemma_text_lt_common_prefix, lemma_text_lt_equal_length_prefix,
    lemma_text_lt_transitive, padded_decimal, pow10, push_padded_decimal, starts_with, text_lt,
    TextOrder,
};

verus! {

broadcast use vstd::seq_lib::group_seq_properties;

/// The file name the pipeline's disk writer gives the snapshot of `step`.
pub open spec fn snapshot_name(step: nat) -> Seq<char> {
    "snapshot-"@ + padded_decimal(step, 5) + ".bin"@
}

/// The file name the file observer gives the snapshot of `step`.
pub open spec fn observer_snapshot_name(step: nat) -> Seq<char> {
    "snapshot_"@ + padded_decimal(step, 5) + ".bin"@
}

/// A file name that playback recognizes as a snapshot.
pub open spec fn is_snapshot_name(s: Seq<char>) -> bool {
    starts_with(s, "snapshot-"@) && ends_with(s, ".bin"@)
}

/// `snapshot-{step:05}.bin`.
pub fn snapshot_file_name(step: usize) -> (r: String)
    ensures
        r@ == snapshot_name(step as nat),
{
    let mut name = String::from_str("snapshot-");
    push_padded_decimal(&mut name, step, 5);
    name.append(".bin");
    name
}

/// `snapshot_{step:05}.bin`.
pub fn observer_file_name(step: usize) -> (r: String)
    ensures
        r@ == observer_snapshot_name(step as nat),
{
    let mut name = String::from_str("snapshot_");
    push_padded_decimal(&mut name, step, 5);
    name.append(".bin");
    name
}

/// Whether playback takes a file of this name for a snapshot.
pub fn is_snapshot_file_name(name: &str) -> (r: bool)
    ensures
        r == is_snapshot_name(name@),
{
    has_prefix(name, "snapshot-") && has_suffix(name, ".bin")
}

/// Every file the disk writer produces is recognized as a snapshot.
pub proof fn law_written_snapshots_are_found(step: nat)
    ensures
        is_snapshot_name(snapshot_name(step)),
{
    reveal_strlit("snapshot-");
    reveal_strlit(".bin");
    let s = snapshot_name(step);
    let d = padded_decimal(step, 5);
    assert(s.subrange(0, 9) =~= "snapshot-"@);
    assert(s.subrange(s.len() - 4, s.len() as int) =~= ".bin"@);
}

/// The file observer's names (with an underscore) are not among the
/// names playback collects.
pub proof fn law_observer_snapshots_are_not_found(step: nat)
    ensures
        !is_snapshot_name(observer_snapshot_name(step)),
{
    reveal_strlit("snapshot-");
    reveal_strlit("snapshot_");
    reveal_strlit(".bin");
    let s = observer_snapshot_name(step);
    assert(s[8] == '_');
    assert("snapshot-"@[8] == '-');
    if starts_with(s, "snapshot-"@) {
        assert(s.subrange(0, 9)[8] == s[8]);
    }
}

/// For steps below 100000, name order is step order.
pub proof fn law_snapshot_names_follow_steps(a: nat, b: nat)
    requires
        a < b < 100000,
    ensures
        text_lt(snapshot_name(a), snapshot_name(b)),
{
    assert(pow10(5) == 100000) by {
        reveal_with_fuel(pow10, 6);
    }
    lemma_padded_decimal_order(a, b, 5);
    let pa = padded_decimal(a, 5);
    let pb = padded_decimal(b, 5);
    lemma_text_lt_equal_length_prefix(pa, pb, ".bin"@, ".bin"@);
    lemma_text_lt_common_prefix("snapshot-"@, pa + ".bin"@, pb + ".bin"@);
    assert("snapshot-"@ + pa + ".bin"@ =~= "snapshot-"@ + (pa + ".bin"@));
    assert("snapshot-"@ + pb + ".bin"@ =~= "snapshot-"@ + (pb + ".bin"@));
}

/// Playback shows what the disk writer wrote in step order: when a sorted
/// list of names (as `find_snapshot_names` returns) holds the snapshot
/// files of steps below 100000, those steps never decrease along it.
pub proof fn law_sorted_snapshots_in_step_order(found: Seq<String>, steps: Seq<nat>)
    requires
        texts_sorted(found),
        found.len() == steps.len(),
        forall|i: int| 0 <= i < found.len() ==> #[trigger] found[i]@ == snapshot_name(steps[i]),
        forall|i: int| 0 <= i < steps.len() ==> #[trigger] steps[i] < 100000,
    ensures
        forall|i: int, j: int| 0 <= i < j < steps.len() ==> steps[i] <= steps[j],
{
    assert forall|i: int, j: int| 0 <= i < j < steps.len() implies steps[i] <= steps[j] by {
        if steps[j] < steps[i] {
            law_snapshot_names_follow_steps(steps[j], steps[i]);
            assert(found[i]@ == snapshot_name(steps[i]));
            assert(found[j]@ == snapshot_name(steps[j]));
            assert(!text_lt(found[j]@, found[i]@));
        }
    }
}

// ============================================================================
// Directory listings
// ============================================================================

/// The names of a listing that are snapshots, in listing order.
pub open spec fn snapshot_names(names: Seq<String>) -> Seq<String>
    decreases names.len(),
{
    if names.len() == 0 {
        seq![]
    } else {
        let rest = snapshot_names(names.drop_last());
        if is_snapshot_name(names.last()@) {
            rest.push(names.last())
        } else {
            rest
        }
    }
}

/// The texts are in non-decreasing text order.
pub open spec fn texts_sorted(s: Seq<String>) -> bool {
    forall|i: int, j: int| #![trigger s[i], s[j]] 0 <= i < j < s.len() ==> !text_lt(s[j]@, s[i]@)
}

/// Count the snapshot files among the names of a directory listing.
pub fn count_snapshots(names: &Vec<String>) -> (r: usize)
    ensures
        r == snapshot_names(names@).len(),
{
    let mut count: usize = 0;
    let mut i: usize = 0;
    while i < names.len()
        invariant
            i <= names.len(),
            count == snapshot_names(names@.take(i as int)).len(),
            count <= i,
        decreases names.len() - i,
    {
        proof {
            assert(names@.take(i + 1).drop_last() =~= names@.take(i as int));
        }
        if is_snapshot_file_name(names[i].as_str()) {
            count = count + 1;
        }
        i = i + 1;
    }
    proof {
        assert(names@.take(i as int) =~= names@);
    }
    count
}

fn insert_sorted(r: &mut Vec<String>, x: String)
    requires
        texts_sorted(old(r)@),
    ensures
        texts_sorted(final(r)@),
        final(r)@.to_multiset() == old(r)@.to_multiset().insert(x),
{
    let mut i: usize = 0;
    while i < r.len()
        invariant
            i <= r.len(),
            forall|k: int| 0 <= k < i ==> !text_lt(x@, #[trigger] r@[k]@),
        ensures
            i <= r.len(),
            forall|k: int| 0 <= k < i ==> !text_lt(x@, #[trigger] r@[k]@),
            i == r.len() || text_lt(x@, r@[i as int]@),
        decreases r.len() - i,
    {
        match compare_text(x.as_str(), r[i].as_str()) {
            TextOrder::Less => break,
            _ => {},
        }
        i = i + 1;
    }
    let ghost old_r = r@;
    let ghost xv = x;
    r.insert(i, x);
    proof {
        vstd::seq_lib::to_multiset_insert(old_r, i as int, xv);
        let n = r@;
        assert forall|p: int, q: int| #![trigger n[p], n[q]] 0 <= p < q < n.len() implies !text_lt(
            n[q]@,
            n[p]@,
        ) by {
            if q < i {
                assert(n[p] == old_r[p] && n[q] == old_r[q]);
            } else if q == i {
                assert(n[p] == old_r[p]);
            } else if p == i {
                assert(n[q] == old_r[q - 1]);
                assert(i < old_r.len());
                assert(text_lt(xv@, old_r[i as int]@));
                if text_lt(n[q]@, xv@) {
                    if q - 1 == i {
                        lemma_text_lt_asymmetric(xv@, old_r[i as int]@);
                    } else {
                        lemma_text_lt_transitive(old_r[q - 1]@, xv@, old_r[i as int]@);
                        assert(!text_lt(old_r[q - 1]@, old_r[i as int]@));
                    }
                }
            } else if p < i {
                assert(n[p] == old_r[p] && n[q] == old_r[q - 1]);
            } else {
                assert(n[p] == old_r[p - 1] && n[q] == old_r[q - 1]);
            }
        }
    }
}

/// Counting the snapshots of a listing gives the number of files
/// `find_snapshot_names` returns for it.
pub proof fn law_count_matches_found(names: Seq<String>, found: Seq<String>)
    requires
        found.to_multiset() == snapshot_names(names).to_multiset(),
    ensures
        found.len() == snapshot_names(names).len(),
{
    vstd::seq_lib::to_multiset_len(found);
    vstd::seq_lib::to_multiset_len(snapshot_names(names));
}

/// The snapshot files of a directory listing, sorted by name.
pub fn find_snapshot_names(names: Vec<String>) -> (r: Vec<String>)
    ensures
        texts_sorted(r@),
        r@.to_multiset() == snapshot_names(names@).to_multiset(),
        forall|i: int| 0 <= i < r@.len() ==> is_snapshot_name(#[trigger] r@[i]@),
{
    let mut out: Vec<String> = Vec::new();
    let mut i: usize = 0;
    let ghost all = names@;
    let total = names.len();
    let mut rest = names;
    proof {
        assert(all.take(0) =~= seq![]);
        assert(snapshot_names(all.take(0)) =~= seq![]);
        assert(out@.to_multiset() =~= Seq::<String>::empty().to_multiset());
        assert(rest@ =~= all.skip(0));
    }
    while rest.len() > 0
        invariant
            i <= all.len(),
            total == all.len(),
            rest@ == all.skip(i as int),
            texts_sorted(out@),
            out@.to_multiset() == snapshot_names(all.take(i as int)).to_multiset(),
            forall|k: int| 0 <= k < out@.len() ==> is_snapshot_name(#[trigger] out@[k]@),
        decreases rest.len(),
    {
        let name = rest.remove(0);
        proof {
            assert(name == all[i as int]);
            assert(all.take(i + 1).drop_last() =~= all.take(i as int));
            assert(all.take(i + 1).last() == all[i as int]);
            assert(rest@ =~= all.skip(i + 1));
        }
        if is_snapshot_file_name(name.as_str()) {
            let ghost before = out@;
            let ghost nm = name;
            insert_sorted(&mut out, name);
            proof {
                vstd::seq_lib::to_multiset_build(snapshot_names(all.take(i as int)), nm);
                assert forall|k: int| 0 <= k < out@.len() implies is_snapshot_name(
                    #[trigger] out@[k]@,
                ) by {
                    assert(out@.to_multiset().count(out@[k]) > 0);
                    if out@[k] != nm {
                        assert(before.to_multiset().count(out@[k]) > 0);
                        assert(before.contains(out@[k]));
                    }
                }
            }
        }
        i = i + 1;
    }
    proof {
        assert(all.take(i as int) =~= all);
    }
    out
}

// ============================================================================
// Observers
// ============================================================================

/// Observer that writes snapshots to disk as bincode files.
///
/// Files are written to `{directory}/snapshot_{step:05}.bin`.
pub struct FileObserver {
    directory: String,
    n_saved: usize,
}

impl FileObserver {
    /// The directory snapshots are written to.
    pub closed spec fn spec_directory(&self) -> Seq<char> {
        self.directory@
    }

    /// The number of snapshots saved so far.
    pub closed spec fn spec_n_saved(&self) -> nat {
        self.n_saved as nat
    }

    /// Create a file observer that writes to the given directory.
    pub fn new(directory: String) -> (r: Self)
        ensures
            r.spec_directory() == directory@,
            r.spec_n_saved() == 0,
    {
        FileObserver { directory, n_saved: 0 }
    }

    /// The directory snapshots are written to.
    pub fn directory(&self) -> (r: &String)
        ensures
            r@ == self.spec_directory(),
    {
        &self.directory
    }

    /// Number of snapshots saved so far.
    pub fn n_saved(&self) -> (r: usize)
        ensures
            r == self.spec_n_saved(),
    {
        self.n_saved
    }

    /// The file name the snapshot of `step` is written under.
    pub fn file_name(&self, step: usize) -> (r: String)
        ensures
            r@ == observer_snapshot_name(step as nat),
    {
        observer_file_name(step)
    }

    /// Account for one attempt to save a snapshot.
    pub fn record_outcome(&mut self, saved: bool)
        requires
            old(self).spec_n_saved() < usize::MAX,
        ensures
            final(self).spec_directory() == old(self).spec_directory(),
            final(self).spec_n_saved() == old(self).spec_n_saved() + (if saved {
                1nat
            } else {
                0nat
            }),
    {
        if saved {
            self.n_saved = self.n_saved + 1;
        }
    }

    /// Whether a summary is printed when the run completes (only after at
    /// least one snapshot was saved).
    pub fn reports_on_complete(&self) -> (r: bool)
        ensures
            r == (self.spec_n_saved() > 0),
    {
        self.n_saved > 0
    }
}

/// The number of successful saves among a run of save attempts.
pub open spec fn saved_count(outcomes: Seq<bool>) -> nat
    decreases outcomes.len(),
{
    if outcomes.len() == 0 {
        0
    } else {
        saved_count(outcomes.drop_last()) + (if outcomes.last() {
            1nat
        } else {
            0nat
        })
    }
}

/// Over a run of save attempts from a fresh observer, where each observer
/// of `obs` is the one before after `record_outcome(outcomes[i])` (as its
/// `ensures` gives), the observer counts exactly the successful saves and
/// keeps its directory.
pub proof fn law_observer_counts_saved(obs: Seq<FileObserver>, outcomes: Seq<bool>)
    requires
        obs.len() == outcomes.len() + 1,
        obs[0].spec_n_saved() == 0,
        forall|i: int|
            0 <= i < outcomes.len() ==> (#[trigger] obs[i + 1]).spec_directory() == obs[i].spec_directory()
                && obs[i + 1].spec_n_saved() == obs[i].spec_n_saved() + (if outcomes[i] {
                1nat
            } else {
                0nat
            }),
    ensures
        obs.last().spec_n_saved() == saved_count(outcomes),
        obs.last().spec_directory() == obs[0].spec_directory(),
{
    lemma_observer_prefix(obs, outcomes, outcomes.len() as int);
    assert(outcomes.take(outcomes.len() as int) =~= outcomes);
}

proof fn lemma_observer_prefix(obs: Seq<FileObserver>, outcomes: Seq<bool>, k: int)
    requires
        0 <= k <= outcomes.len(),
        obs.len() == outcomes.len() + 1,
        obs[0].spec_n_saved() == 0,
        forall|i: int|
            0 <= i < outcomes.len() ==> (#[trigger] obs[i + 1]).spec_directory() == obs[i].spec_directory()
                && obs[i + 1].spec_n_saved() == obs[i].spec_n_saved() + (if outcomes[i] {
                1nat
            } else {
                0nat
            }),
    ensures
        obs[k].spec_n_saved() == saved_count(outcomes.take(k)),
        obs[k].spec_directory() == obs[0].spec_directory(),
    decreases k,
{
    if k == 0 {
        assert(outcomes.take(0) =~= seq![]);
    } else {
        lemma_observer_prefix(obs, outcomes, k - 1);
        assert(outcomes.take(k).drop_last() =~= outcomes.take(k - 1));
        assert(outcomes.take(k).last() == outcomes[k - 1]);
        assert(obs[(k - 1) + 1] == obs[k]);
    }
}

/// Observer that does nothing. For headless batch runs.
pub struct NullObserver;

} // verus!
