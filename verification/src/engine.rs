//! The physics engine's bookkeeping: which sector drives each species,
//! how the merged Strang splitting sizes its kinetic steps, when the
//! stepping loop emits snapshots and diagnostics, and how species seeds
//! are drawn from the run seed.
//!
//! A timestep is `T(dt/2) → V(dt)` on the first step, `T(dt) → V(dt)` on
//! interior steps (two adjacent half steps merged), and a closing
//! `T(dt/2)` after the last step: the same total kinetic evolution as the
//! symmetric `T/2 → V → T/2` at every step.
use vstd::prelude::*;

verus! {

// ============================================================================
// Sectors
// ============================================================================

/// Schrodinger sector for a named field species.
pub struct SchrodingerSector {
    name: String,
}

impl SchrodingerSector {
    /// The species name this sector governs.
    pub closed spec fn spec_name(&self) -> Seq<char> {
        self.name@
    }

    /// Create a Schrodinger sector for the named field species.
    pub fn new(name: String) -> (r: Self)
        ensures
            r.spec_name() == name@,
    {
        SchrodingerSector { name }
    }

    /// The species name this sector governs.
    pub fn name(&self) -> (r: &str)
        ensures
            r@ == self.spec_name(),
    {
        self.name.as_str()
    }
}

/// Gross-Pitaevskii sector for a named field species.
pub struct GrossPitaevskiiSector {
    name: String,
}

impl GrossPitaevskiiSector {
    /// The species name this sector governs.
    pub closed spec fn spec_name(&self) -> Seq<char> {
        self.name@
    }

    /// Create a Gross-Pitaevskii sector for the named field species.
    pub fn new(name: String) -> (r: Self)
        ensures
            r.spec_name() == name@,
    {
        GrossPitaevskiiSector { name }
    }

    /// The species name this sector governs.
    pub fn name(&self) -> (r: &str)
        ensures
            r@ == self.spec_name(),
    {
        self.name.as_str()
    }
}

/// Particle sector for a named particle species.
pub struct ParticleSector {
    name: String,
}

impl ParticleSector {
    /// The species name this sector governs.
    pub closed spec fn spec_name(&self) -> Seq<char> {
        self.name@
    }

    /// Create a particle sector for the named species.
    pub fn new(name: String) -> (r: Self)
        ensures
            r.spec_name() == name@,
    {
        ParticleSector { name }
    }

    /// The species name this sector governs.
    pub fn name(&self) -> (r: &str)
        ensures
            r@ == self.spec_name(),
    {
        self.name.as_str()
    }
}

/// Free Schrodinger kinetic evolution (stateless).
pub struct SchrodingerEvolution;

/// The sector that drives one species.
pub enum SectorChoice {
    Schrodinger(SchrodingerSector),
    GrossPitaevskii(GrossPitaevskiiSector),
    Particle(ParticleSector),
}

/// A field species as sector selection sees it.
pub struct FieldSectorInput {
    pub name: String,
    pub has_self_interaction: bool,
}

/// The sector chosen for field `f`: Gross-Pitaevskii with a
/// self-interaction, Schrodinger without.
pub open spec fn field_sector_ok(s: SectorChoice, f: FieldSectorInput) -> bool {
    if f.has_self_interaction {
        s matches SectorChoice::GrossPitaevskii(g) && g.spec_name() == f.name@
    } else {
        s matches SectorChoice::Schrodinger(g) && g.spec_name() == f.name@
    }
}

/// Build sectors from the ontology: one per field species (in the given
/// order), then one particle sector per particle species.
pub fn build_sectors(fields: Vec<FieldSectorInput>, particles: Vec<String>) -> (r: Vec<SectorChoice>)
    requires
        fields.len() + particles.len() <= usize::MAX,
    ensures
        r.len() == fields.len() + particles.len(),
        forall|i: int| 0 <= i < fields.len() ==> field_sector_ok(#[trigger] r@[i], fields@[i]),
        forall|j: int|
            0 <= j < particles.len() ==> (#[trigger] r@[fields.len() + j] matches SectorChoice::Particle(
                p,
            ) && p.spec_name() == particles@[j]@),
{
    let ghost fs = fields@;
    let ghost ps = particles@;
    let nf = fields.len();
    let mut out: Vec<SectorChoice> = Vec::new();
    let mut fields = fields;
    let mut i: usize = 0;
    while fields.len() > 0
        invariant
            nf == fs.len(),
            i <= nf,
            fields@ == fs.skip(i as int),
            out.len() == i,
            forall|k: int| 0 <= k < i ==> field_sector_ok(#[trigger] out@[k], fs[k]),
        decreases fields.len(),
    {
        let f = fields.remove(0);
        proof {
            assert(f == fs[i as int]);
            assert(fields@ =~= fs.skip(i + 1));
        }
        let s = if f.has_self_interaction {
            SectorChoice::GrossPitaevskii(GrossPitaevskiiSector::new(f.name))
        } else {
            SectorChoice::Schrodinger(SchrodingerSector::new(f.name))
        };
        out.push(s);
        i = i + 1;
    }
    let mut particles = particles;
    let mut j: usize = 0;
    let np = particles.len();
    while particles.len() > 0
        invariant
            nf == fs.len(),
            np == ps.len(),
            nf + np <= usize::MAX,
            j <= np,
            particles@ == ps.skip(j as int),
            out.len() == nf + j,
            forall|k: int| 0 <= k < nf ==> field_sector_ok(#[trigger] out@[k], fs[k]),
            forall|k: int|
                0 <= k < j ==> (#[trigger] out@[nf + k] matches SectorChoice::Particle(p)
                    && p.spec_name() == ps[k]@),
        decreases particles.len(),
    {
        let name = particles.remove(0);
        proof {
            assert(name == ps[j as int]);
            assert(particles@ =~= ps.skip(j + 1));
        }
        out.push(SectorChoice::Particle(ParticleSector::new(name)));
        proof {
            assert(out@[nf + j] matches SectorChoice::Particle(p) && p.spec_name() == ps[j as int]@);
        }
        j = j + 1;
    }
    out
}

/// The sum of a sequence of counts.
pub open spec fn count_sum(counts: Seq<usize>) -> nat
    decreases counts.len(),
{
    if counts.len() == 0 {
        0
    } else {
        count_sum(counts.drop_last()) + counts.last() as nat
    }
}

/// Total particle count across all species, given each species' count.
pub fn total_particle_count(counts: &Vec<usize>) -> (r: usize)
    requires
        count_sum(counts@) <= usize::MAX,
    ensures
        r == count_sum(counts@),
{
    let mut total: usize = 0;
    let mut i: usize = 0;
    while i < counts.len()
        invariant
            i <= counts.len(),
            total == count_sum(counts@.take(i as int)),
            count_sum(counts@) <= usize::MAX,
        decreases counts.len() - i,
    {
        proof {
            assert(counts@.take(i + 1).drop_last() =~= counts@.take(i as int));
            lemma_count_sum_prefix(counts@, i + 1);
        }
        total = total + counts[i];
        i = i + 1;
    }
    proof {
        assert(counts@.take(i as int) =~= counts@);
    }
    total
}

proof fn lemma_count_sum_prefix(s: Seq<usize>, k: int)
    requires
        0 <= k <= s.len(),
    ensures
        count_sum(s.take(k)) <= count_sum(s),
    decreases s.len(),
{
    if k < s.len() {
        assert(s.drop_last().take(k) =~= s.take(k));
        lemma_count_sum_prefix(s.drop_last(), k);
    } else {
        assert(s.take(k) =~= s);
    }
}

/// The seed of species number `index` (fields first, then particles).
pub fn species_seed(seed: u64, index: usize) -> (r: u64)
    requires
        seed + index <= u64::MAX,
    ensures
        r == seed + index,
{
    seed + index as u64
}

// ============================================================================
// Merged Strang splitting
// ============================================================================

/// The width of a kinetic step.
#[derive(Clone, Copy, Debug, PartialEq, Eq)]
pub enum KineticWidth {
    /// `dt / 2`: the opening and closing bookends.
    Half,
    /// `dt`: two adjacent half steps merged.
    Full,
}

/// The width in half steps.
pub open spec fn halves(w: KineticWidth) -> nat {
    match w {
        KineticWidth::Half => 1,
        KineticWidth::Full => 2,
    }
}

/// Whether the next step still needs its opening half step.
pub struct StrangClock {
    needs_opening_half: bool,
}

impl StrangClock {
    /// True until the first step has been taken.
    pub closed spec fn spec_needs_opening_half(&self) -> bool {
        self.needs_opening_half
    }

    /// A clock at the start of a run.
    pub fn new() -> (r: StrangClock)
        ensures
            r.spec_needs_opening_half(),
    {
        StrangClock { needs_opening_half: true }
    }

    /// The kinetic width of the next step: half on the first step, full
    /// afterwards.
    pub fn kinetic_width(&mut self) -> (w: KineticWidth)
        ensures
            w == (if old(self).spec_needs_opening_half() {
                KineticWidth::Half
            } else {
                KineticWidth::Full
            }),
            !final(self).spec_needs_opening_half(),
    {
        let w = if self.needs_opening_half {
            KineticWidth::Half
        } else {
            KineticWidth::Full
        };
        self.needs_opening_half = false;
        w
    }

    /// The closing bookend after the last step: always a half step.
    pub fn closing_width(&self) -> (w: KineticWidth)
        ensures
            w == KineticWidth::Half,
    {
        KineticWidth::Half
    }
}

/// The half steps of kinetic evolution that `k` steps apply when the
/// clock starts in state `fresh`.
pub open spec fn kinetic_halves(fresh: bool, k: nat) -> nat
    decreases k,
{
    if k == 0 {
        0
    } else {
        halves(if fresh {
            KineticWidth::Half
        } else {
            KineticWidth::Full
        }) + kinetic_halves(false, (k - 1) as nat)
    }
}

/// A run of `k >= 1` steps from a fresh clock, closed by its bookend,
/// applies exactly `k` full kinetic steps, as the symmetric splitting
/// `T(dt/2) V(dt) T(dt/2)` at every step does.
pub proof fn law_merged_strang_total(k: nat)
    requires
        k >= 1,
    ensures
        kinetic_halves(true, k) + halves(KineticWidth::Half) == 2 * k,
{
    lemma_interior_halves((k - 1) as nat);
}

proof fn lemma_interior_halves(k: nat)
    ensures
        kinetic_halves(false, k) == 2 * k,
    decreases k,
{
    if k > 0 {
        lemma_interior_halves((k - 1) as nat);
    }
}

// ============================================================================
// Output schedule
// ============================================================================

/// `step` is a multiple of `interval` in the sense of
/// `usize::is_multiple_of` (only 0 is a multiple of 0).
pub open spec fn multiple_of(step: nat, interval: nat) -> bool {
    if interval == 0 {
        step == 0
    } else {
        step % interval == 0
    }
}

/// Whether step `step` is an output step: a multiple of `interval`, or
/// the final step.
pub fn is_output_step(step: usize, interval: usize, is_final: bool) -> (r: bool)
    ensures
        r == (multiple_of(step as nat, interval as nat) || is_final),
{
    let multiple = if interval == 0 {
        step == 0
    } else {
        step % interval == 0
    };
    multiple || is_final
}

/// The engine loop's snapshot decision: with the interval raised to at
/// least one, snapshot every `interval` steps and at the final step;
/// the closing kinetic bookend is applied just before the final snapshot.
pub fn engine_snapshot_due(step: usize, interval: usize, is_final: bool) -> (r: (bool, bool))
    ensures
        r.0 == ((step as int) % (if interval == 0 {
            1int
        } else {
            interval as int
        }) == 0 || is_final),
        r.1 == is_final,
{
    let write_interval = if interval > 1 {
        interval
    } else {
        1
    };
    let due = step % write_interval == 0 || is_final;
    (due, is_final)
}

/// The step number after the `n`-th step (counting from zero) of a run
/// resumed at step `offset`.
pub fn resumed_step(offset: usize, n: usize) -> (r: usize)
    requires
        offset + n + 1 <= usize::MAX,
    ensures
        r == offset + n + 1,
{
    offset + n + 1
}

/// A resumed run skips the initial snapshot, which would repeat the
/// last frame of the run it resumes.
pub fn sends_initial_snapshot(offset: usize) -> (r: bool)
    ensures
        r == (offset == 0),
{
    offset == 0
}

/// The output steps among the first `k` steps of a run of `n_steps`
/// steps resumed at step `offset`: step `offset + j` (for `j` from 1)
/// is one when it is a multiple of `interval` or the run's last step.
pub open spec fn output_steps_upto(offset: nat, n_steps: nat, interval: nat, k: nat) -> Seq<nat>
    decreases k,
{
    if k == 0 {
        seq![]
    } else {
        let prev = output_steps_upto(offset, n_steps, interval, (k - 1) as nat);
        if multiple_of(offset + k, interval) || k == n_steps {
            prev.push(offset + k)
        } else {
            prev
        }
    }
}

/// The steps at which a run of `n_steps` steps resumed at step `offset`
/// sends a snapshot: the initial state (step 0) when the run starts
/// fresh, then every output step in order.
pub open spec fn run_snapshot_steps(offset: nat, n_steps: nat, interval: nat) -> Seq<nat> {
    (if offset == 0 {
        seq![0nat]
    } else {
        seq![]
    }) + output_steps_upto(offset, n_steps, interval, n_steps)
}

/// The steps at which a run sends snapshots, in order (with the
/// diagnostic interval, the steps at which it computes diagnostics,
/// leaving out the initial state).
pub fn snapshot_steps(offset: usize, n_steps: usize, interval: usize) -> (r: Vec<usize>)
    requires
        offset + n_steps <= usize::MAX,
    ensures
        r@.len() == run_snapshot_steps(offset as nat, n_steps as nat, interval as nat).len(),
        forall|i: int|
            0 <= i < r@.len() ==> #[trigger] r@[i] as nat == run_snapshot_steps(
                offset as nat,
                n_steps as nat,
                interval as nat,
            )[i],
{
    let mut out: Vec<usize> = Vec::new();
    let ghost init: Seq<nat> = if offset == 0 {
        seq![0nat]
    } else {
        seq![]
    };
    if sends_initial_snapshot(offset) {
        out.push(0);
    }
    let mut n: usize = 0;
    while n < n_steps
        invariant
            n <= n_steps,
            offset + n_steps <= usize::MAX,
            init == (if offset == 0 {
                seq![0nat]
            } else {
                seq![]
            }),
            out@.len() == (init + output_steps_upto(offset as nat, n_steps as nat, interval as nat, n as nat)).len(),
            forall|i: int|
                0 <= i < out@.len() ==> #[trigger] out@[i] as nat == (init + output_steps_upto(
                    offset as nat,
                    n_steps as nat,
                    interval as nat,
                    n as nat,
                ))[i],
        decreases n_steps - n,
    {
        let step = resumed_step(offset, n);
        let is_final = n + 1 == n_steps;
        let ghost before = init + output_steps_upto(offset as nat, n_steps as nat, interval as nat, n as nat);
        if is_output_step(step, interval, is_final) {
            out.push(step);
            proof {
                assert(init + output_steps_upto(offset as nat, n_steps as nat, interval as nat, (n + 1) as nat)
                    =~= before.push(step as nat));
            }
        } else {
            proof {
                assert(init + output_steps_upto(offset as nat, n_steps as nat, interval as nat, (n + 1) as nat)
                    =~= before);
            }
        }
        n = n + 1;
    }
    out
}

proof fn lemma_output_steps_bounded(offset: nat, n_steps: nat, interval: nat, k: nat)
    ensures
        forall|i: int|
            0 <= i < output_steps_upto(offset, n_steps, interval, k).len() ==> offset < #[trigger] output_steps_upto(
                offset,
                n_steps,
                interval,
                k,
            )[i] <= offset + k,
        forall|i: int, j: int|
            0 <= i < j < output_steps_upto(offset, n_steps, interval, k).len() ==> #[trigger] output_steps_upto(
                offset,
                n_steps,
                interval,
                k,
            )[i] < #[trigger] output_steps_upto(offset, n_steps, interval, k)[j],
    decreases k,
{
    if k > 0 {
        lemma_output_steps_bounded(offset, n_steps, interval, (k - 1) as nat);
        let p = output_steps_upto(offset, n_steps, interval, (k - 1) as nat);
        let c = output_steps_upto(offset, n_steps, interval, k);
        if multiple_of(offset + k, interval) || k == n_steps {
            assert(c == p.push(offset + k));
            assert forall|i: int| 0 <= i < c.len() implies offset < #[trigger] c[i] <= offset + k by {
                if i < p.len() {
                    assert(c[i] == p[i]);
                }
            }
            assert forall|i: int, j: int| 0 <= i < j < c.len() implies #[trigger] c[i] < #[trigger] c[j] by {
                assert(c[i] == p[i]);
                if j < p.len() {
                    assert(c[j] == p[j]);
                }
            }
        } else {
            assert(c == p);
        }
    }
}

/// A run's snapshot steps strictly increase, and a run of at least one
/// step always ends with a snapshot of its last step, whatever the
/// interval.
pub proof fn law_snapshot_schedule(offset: nat, n_steps: nat, interval: nat)
    ensures
        ({
            let s = run_snapshot_steps(offset, n_steps, interval);
            &&& forall|i: int, j: int| 0 <= i < j < s.len() ==> #[trigger] s[i] < #[trigger] s[j]
            &&& n_steps > 0 ==> s.len() > 0 && s.last() == offset + n_steps
        }),
{
    let o = output_steps_upto(offset, n_steps, interval, n_steps);
    let init: Seq<nat> = if offset == 0 {
        seq![0nat]
    } else {
        seq![]
    };
    let s = init + o;
    lemma_output_steps_bounded(offset, n_steps, interval, n_steps);
    assert forall|i: int, j: int| 0 <= i < j < s.len() implies #[trigger] s[i] < #[trigger] s[j] by {
        if i >= init.len() {
            assert(s[i] == o[i - init.len()]);
            assert(s[j] == o[j - init.len()]);
        } else {
            assert(s[j] == o[j - init.len()]);
            assert(o[j - init.len()] > offset);
        }
    }
    if n_steps > 0 {
        assert(o.len() > 0);
        assert(s.last() == o.last());
    }
}

} // verus!
