//! Ontology configuration: what exists and what governs it.
//!
//! The ontology names the background spacetime, the particle and field
//! species in the box, and the couplings between them. Validation reads
//! which parameters are present, the free-evolution kind of each field and
//! the species each coupling names; the numerical parameters themselves
//! are held by the caller.
use vstd::prelude::*;
use vstd::string::StringExecFns;
use crate::config::{ConfigError, FlrwParameter};
use crate::text::{compare_text, text_lt, TextOrder};

verus! {

// ============================================================================
// Spacetime
// ============================================================================

/// The background geometry type.
#[derive(Clone, Copy, Debug, PartialEq, Eq, Structural)]
pub enum SpacetimeBackground {
    Flrw,
    Static,
}

/// What validation reads of a spacetime declaration: its background and
/// which of the FLRW parameters are given.
#[derive(Clone, Copy, Debug)]
pub struct SpacetimeOutline {
    pub background: SpacetimeBackground,
    pub has_hubble: bool,
    pub has_omega_m: bool,
    pub has_omega_v: bool,
}

/// The first missing FLRW parameter, if the spacetime is FLRW.
pub open spec fn spacetime_error(sp: SpacetimeOutline) -> Option<ConfigErrorView> {
    match sp.background {
        SpacetimeBackground::Flrw => if !sp.has_hubble {
            Some(ConfigErrorView::FlrwRequires(FlrwParameter::Hubble))
        } else if !sp.has_omega_m {
            Some(ConfigErrorView::FlrwRequires(FlrwParameter::OmegaM))
        } else if !sp.has_omega_v {
            Some(ConfigErrorView::FlrwRequires(FlrwParameter::OmegaV))
        } else {
            None
        },
        SpacetimeBackground::Static => None,
    }
}

/// An FLRW spacetime validates exactly when it gives all three of
/// hubble, omega_m and omega_v, and a static one always does; a failure
/// names the first of them, in that order, that is missing.
pub proof fn law_flrw_parameters(sp: SpacetimeOutline)
    ensures
        spacetime_error(sp) is None <==> (sp.background == SpacetimeBackground::Static || (
        sp.has_hubble && sp.has_omega_m && sp.has_omega_v)),
        spacetime_error(sp) == Some(ConfigErrorView::FlrwRequires(FlrwParameter::Hubble)) <==> (
        sp.background == SpacetimeBackground::Flrw && !sp.has_hubble),
        spacetime_error(sp) == Some(ConfigErrorView::FlrwRequires(FlrwParameter::OmegaM)) <==> (
        sp.background == SpacetimeBackground::Flrw && sp.has_hubble && !sp.has_omega_m),
        spacetime_error(sp) == Some(ConfigErrorView::FlrwRequires(FlrwParameter::OmegaV)) <==> (
        sp.background == SpacetimeBackground::Flrw && sp.has_hubble && sp.has_omega_m
            && !sp.has_omega_v),
{
}

impl SpacetimeOutline {
    /// Validate spacetime parameters: FLRW requires hubble, omega_m and
    /// omega_v, checked in that order.
    pub fn validate(&self) -> (r: Result<(), ConfigError>)
        ensures
            match r {
                Ok(_) => spacetime_error(*self) is None,
                Err(e) => spacetime_error(*self) == Some(e@),
            },
    {
        match self.background {
            SpacetimeBackground::Flrw => {
                if !self.has_hubble {
                    return Err(ConfigError::FlrwRequires(FlrwParameter::Hubble));
                }
                if !self.has_omega_m {
                    return Err(ConfigError::FlrwRequires(FlrwParameter::OmegaM));
                }
                if !self.has_omega_v {
                    return Err(ConfigError::FlrwRequires(FlrwParameter::OmegaV));
                }
                Ok(())
            },
            SpacetimeBackground::Static => Ok(()),
        }
    }

    /// Whether the spacetime is expanding.
    pub fn is_expanding(&self) -> (r: bool)
        ensures
            r == (self.background == SpacetimeBackground::Flrw),
    {
        match self.background {
            SpacetimeBackground::Flrw => true,
            SpacetimeBackground::Static => false,
        }
    }
}

// ============================================================================
// Errors as values
// ============================================================================

/// The mathematical value of a configuration error.
pub enum ConfigErrorView {
    Parse(Seq<char>),
    FlrwRequires(FlrwParameter),
    SchrodingerWithoutLengthScale(Seq<char>),
    WaveWithoutSpeed(Seq<char>),
    UnknownSpecies(Seq<char>, Seq<char>),
    NoSpecies,
    ScaleFactorRangeRequired,
    TimeRangeRequired,
    UnsupportedInitialization(Seq<char>, bool, bool),
    UnsupportedFieldMethod(Seq<char>, Seq<char>),
    UnsupportedParticleMethod(Seq<char>, Seq<char>),
    FieldRequiresMass(Seq<char>),
    NoFieldSpecies,
    FieldSpeciesRequiresLengthScale,
    FieldSpeciesRequiresMass,
    NoSnapshotsFound(Seq<char>),
}

impl View for ConfigError {
    type V = ConfigErrorView;

    open spec fn view(&self) -> ConfigErrorView {
        match self {
            ConfigError::Parse(m) => ConfigErrorView::Parse(m@),
            ConfigError::FlrwRequires(p) => ConfigErrorView::FlrwRequires(*p),
            ConfigError::SchrodingerWithoutLengthScale(n) => ConfigErrorView::SchrodingerWithoutLengthScale(n@),
            ConfigError::WaveWithoutSpeed(n) => ConfigErrorView::WaveWithoutSpeed(n@),
            ConfigError::UnknownSpecies(k, s) => ConfigErrorView::UnknownSpecies(k@, s@),
            ConfigError::NoSpecies => ConfigErrorView::NoSpecies,
            ConfigError::ScaleFactorRangeRequired => ConfigErrorView::ScaleFactorRangeRequired,
            ConfigError::TimeRangeRequired => ConfigErrorView::TimeRangeRequired,
            ConfigError::UnsupportedInitialization(m, p, f) => ConfigErrorView::UnsupportedInitialization(m@, *p, *f),
            ConfigError::UnsupportedFieldMethod(m, n) => ConfigErrorView::UnsupportedFieldMethod(m@, n@),
            ConfigError::UnsupportedParticleMethod(m, n) => ConfigErrorView::UnsupportedParticleMethod(m@, n@),
            ConfigError::FieldRequiresMass(n) => ConfigErrorView::FieldRequiresMass(n@),
            ConfigError::NoFieldSpecies => ConfigErrorView::NoFieldSpecies,
            ConfigError::FieldSpeciesRequiresLengthScale => ConfigErrorView::FieldSpeciesRequiresLengthScale,
            ConfigError::FieldSpeciesRequiresMass => ConfigErrorView::FieldSpeciesRequiresMass,
            ConfigError::NoSnapshotsFound(d) => ConfigErrorView::NoSnapshotsFound(d@),
        }
    }
}

// ============================================================================
// Species
// ============================================================================

/// Algebraic grade specification: single grade or multi-grade subspace.
#[derive(Clone, Debug, PartialEq, Eq)]
pub enum FieldGrade {
    /// A single grade (e.g. 0 for scalar, 2 for bivector).
    Single(usize),
    /// Multiple grades forming a subspace (e.g. [0, 3] for even subalgebra).
    Multi(Vec<usize>),
}

impl FieldGrade {
    /// Whether this is the even subalgebra (grades 0 and 3 in 3D).
    pub fn is_even_subalgebra(&self) -> (r: bool)
        ensures
            r == (self matches FieldGrade::Multi(g) && g@ == seq![0usize, 3usize]),
    {
        match self {
            FieldGrade::Multi(grades) => {
                let r = grades.len() == 2 && grades[0] == 0 && grades[1] == 3;
                proof {
                    if r {
                        assert(grades@ =~= seq![0usize, 3usize]);
                    }
                }
                r
            },
            FieldGrade::Single(_) => false,
        }
    }

    /// Whether this is a single grade.
    pub fn is_single(&self) -> (r: bool)
        ensures
            r == (self is Single),
    {
        match self {
            FieldGrade::Single(_) => true,
            FieldGrade::Multi(_) => false,
        }
    }
}

/// Default deposition kernel for particle species.
pub fn default_kernel() -> (r: String)
    ensures
        r@ == "cic"@,
{
    String::from_str("cic")
}

/// Total particle count of a species with `n` particles per side (n³).
pub fn total_count(n: usize) -> (r: usize)
    requires
        n * n * n <= usize::MAX,
    ensures
        r == n * n * n,
{
    proof {
        if n > 0 {
            assert(n * n <= n * n * n) by (nonlinear_arith)
                requires
                    n > 0,
            ;
        }
    }
    n * n * n
}

/// What validation reads of a field species: its name, its free
/// evolution kind, and whether `length_scale` and `speed` are given.
pub struct FieldOutline {
    pub name: String,
    pub free: Option<String>,
    pub has_length_scale: bool,
    pub has_speed: bool,
}

/// A coupling term between species.
#[derive(Clone, Debug)]
pub struct Coupling {
    /// Coupling kind: "gravity", "electromagnetic", etc.
    pub kind: String,
    /// Participating species (by name).
    pub species: Vec<String>,
}

/// Legacy lagrangian block (backward compatibility).
#[derive(Clone, Debug)]
pub struct LagrangianLegacy {
    pub gravity: bool,
    pub electromagnetic: Vec<String>,
}

/// What validation reads of an ontology: the spacetime, the particle
/// species names, the field species, the couplings and the legacy
/// lagrangian block. Validation asks (`wf`) that each species list holds
/// distinct names in name order, as the ontology's name-keyed maps do.
pub struct OntologyOutline {
    pub spacetime: SpacetimeOutline,
    pub particles: Vec<String>,
    pub fields: Vec<FieldOutline>,
    pub coupling: Vec<Coupling>,
    pub lagrangian: Option<LagrangianLegacy>,
}

/// The field's free evolution kind is `kind`.
pub open spec fn free_is(f: FieldOutline, kind: Seq<char>) -> bool {
    f.free matches Some(s) && s@ == kind
}

/// What is wrong with one field declaration, if anything.
pub open spec fn field_error(f: FieldOutline) -> Option<ConfigErrorView> {
    if free_is(f, "schrodinger"@) && !f.has_length_scale {
        Some(ConfigErrorView::SchrodingerWithoutLengthScale(f.name@))
    } else if free_is(f, "wave"@) && !f.has_speed {
        Some(ConfigErrorView::WaveWithoutSpeed(f.name@))
    } else {
        None
    }
}

/// The first field declaration with an error.
pub open spec fn first_field_error(fs: Seq<FieldOutline>) -> Option<ConfigErrorView>
    decreases fs.len(),
{
    if fs.len() == 0 {
        None
    } else if field_error(fs[0]) is Some {
        field_error(fs[0])
    } else {
        first_field_error(fs.drop_first())
    }
}

/// Some particle or field species is called `name`.
pub open spec fn is_declared(o: OntologyOutline, name: Seq<char>) -> bool {
    (exists|i: int| 0 <= i < o.particles.len() && #[trigger] o.particles@[i]@ == name) || (exists|
        j: int,
    |
        0 <= j < o.fields.len() && #[trigger] o.fields@[j].name@ == name)
}

/// The first species among `names` that the ontology does not declare.
pub open spec fn first_unknown(o: OntologyOutline, kind: Seq<char>, names: Seq<String>) -> Option<
    ConfigErrorView,
>
    decreases names.len(),
{
    if names.len() == 0 {
        None
    } else if !is_declared(o, names[0]@) {
        Some(ConfigErrorView::UnknownSpecies(kind, names[0]@))
    } else {
        first_unknown(o, kind, names.drop_first())
    }
}

/// The first coupling that names an undeclared species.
pub open spec fn first_coupling_error(o: OntologyOutline, cs: Seq<Coupling>) -> Option<
    ConfigErrorView,
>
    decreases cs.len(),
{
    if cs.len() == 0 {
        None
    } else if first_unknown(o, cs[0].kind@, cs[0].species@) is Some {
        first_unknown(o, cs[0].kind@, cs[0].species@)
    } else {
        first_coupling_error(o, cs.drop_first())
    }
}

/// The error that validation reports, if any: spacetime first, then the
/// field declarations, then the coupling references, then the demand for
/// at least one species.
pub open spec fn ontology_error(o: OntologyOutline) -> Option<ConfigErrorView> {
    if spacetime_error(o.spacetime) is Some {
        spacetime_error(o.spacetime)
    } else if first_field_error(o.fields@) is Some {
        first_field_error(o.fields@)
    } else if first_coupling_error(o, o.coupling@) is Some {
        first_coupling_error(o, o.coupling@)
    } else if o.particles.len() == 0 && o.fields.len() == 0 {
        Some(ConfigErrorView::NoSpecies)
    } else {
        None
    }
}

/// A field declaration that cannot evolve: `free = "schrodinger"` without
/// `length_scale`, or `free = "wave"` without `speed`.
pub open spec fn declaration_faulty(f: FieldOutline) -> bool {
    f.free matches Some(s) && ((s@ == "schrodinger"@ && !f.has_length_scale) || (s@ == "wave"@
        && !f.has_speed))
}

/// The error a faulty declaration is reported with.
pub open spec fn declaration_fault(f: FieldOutline) -> ConfigErrorView {
    if f.free matches Some(s) && s@ == "schrodinger"@ && !f.has_length_scale {
        ConfigErrorView::SchrodingerWithoutLengthScale(f.name@)
    } else {
        ConfigErrorView::WaveWithoutSpeed(f.name@)
    }
}

proof fn lemma_field_error_is_fault(f: FieldOutline)
    ensures
        field_error(f) is None <==> !declaration_faulty(f),
        declaration_faulty(f) ==> field_error(f) == Some(declaration_fault(f)),
{
    reveal_strlit("schrodinger");
    reveal_strlit("wave");
    assert("schrodinger"@.len() != "wave"@.len());
}

/// Every field declaration is checked, in order: the field errors find
/// nothing exactly when no declaration is faulty, and otherwise report
/// the first faulty declaration.
pub proof fn law_field_declarations_checked(fs: Seq<FieldOutline>)
    ensures
        first_field_error(fs) is None <==> forall|i: int|
            0 <= i < fs.len() ==> !declaration_faulty(#[trigger] fs[i]),
        forall|j: int|
            0 <= j < fs.len() && declaration_faulty(#[trigger] fs[j]) && (forall|i: int|
                0 <= i < j ==> !declaration_faulty(#[trigger] fs[i])) ==> first_field_error(fs)
                == Some(declaration_fault(fs[j])),
    decreases fs.len(),
{
    if fs.len() > 0 {
        let t = fs.drop_first();
        law_field_declarations_checked(t);
        lemma_field_error_is_fault(fs[0]);
        assert forall|i: int| 0 <= i < t.len() implies #[trigger] t[i] == fs[i + 1] by {}
        if first_field_error(fs) is None {
            assert forall|i: int| 0 <= i < fs.len() implies !declaration_faulty(#[trigger] fs[i]) by {
                if i > 0 {
                    assert(fs[i] == t[i - 1]);
                }
            }
        }
        if forall|i: int| 0 <= i < fs.len() ==> !declaration_faulty(#[trigger] fs[i]) {
            assert(!declaration_faulty(fs[0]));
            assert forall|i: int| 0 <= i < t.len() implies !declaration_faulty(#[trigger] t[i]) by {
                assert(t[i] == fs[i + 1]);
            }
        }
        assert forall|j: int|
            0 <= j < fs.len() && declaration_faulty(#[trigger] fs[j]) && (forall|i: int|
                0 <= i < j ==> !declaration_faulty(#[trigger] fs[i])) implies first_field_error(fs)
            == Some(declaration_fault(fs[j])) by {
            if j > 0 {
                assert(!declaration_faulty(fs[0]));
                assert(t[j - 1] == fs[j]);
                assert forall|i: int| 0 <= i < j - 1 implies !declaration_faulty(#[trigger] t[i]) by {
                    assert(t[i] == fs[i + 1]);
                }
            }
        }
    }
}

proof fn lemma_first_unknown(o: OntologyOutline, kind: Seq<char>, names: Seq<String>)
    ensures
        first_unknown(o, kind, names) is None <==> forall|i: int|
            0 <= i < names.len() ==> is_declared(o, #[trigger] names[i]@),
        first_unknown(o, kind, names) matches Some(e) ==> exists|i: int|
            0 <= i < names.len() && !is_declared(o, #[trigger] names[i]@) && e
                == ConfigErrorView::UnknownSpecies(kind, names[i]@),
    decreases names.len(),
{
    if names.len() > 0 {
        let t = names.drop_first();
        lemma_first_unknown(o, kind, t);
        assert forall|i: int| 0 <= i < t.len() implies #[trigger] t[i] == names[i + 1] by {}
        if first_unknown(o, kind, names) is None {
            assert forall|i: int| 0 <= i < names.len() implies is_declared(o, #[trigger] names[i]@) by {
                if i > 0 {
                    assert(names[i] == t[i - 1]);
                }
            }
        }
        if forall|i: int| 0 <= i < names.len() ==> is_declared(o, #[trigger] names[i]@) {
            assert(is_declared(o, names[0]@));
            assert forall|i: int| 0 <= i < t.len() implies is_declared(o, #[trigger] t[i]@) by {
                assert(t[i] == names[i + 1]);
            }
        }
        if let Some(e) = first_unknown(o, kind, names) {
            if is_declared(o, names[0]@) {
                let i = choose|i: int|
                    0 <= i < t.len() && !is_declared(o, #[trigger] t[i]@) && e
                        == ConfigErrorView::UnknownSpecies(kind, t[i]@);
                assert(names[i + 1] == t[i]);
            }
        }
    }
}

/// Every species a coupling names is checked: the couplings pass exactly
/// when every species they name is declared, and otherwise the error names
/// an undeclared species together with the kind of a coupling naming it.
pub proof fn law_couplings_checked(o: OntologyOutline, cs: Seq<Coupling>)
    ensures
        first_coupling_error(o, cs) is None <==> forall|c: int, k: int|
            0 <= c < cs.len() && 0 <= k < cs[c].species.len() ==> is_declared(
                o,
                #[trigger] cs[c].species@[k]@,
            ),
        first_coupling_error(o, cs) matches Some(e) ==> exists|c: int, k: int|
            0 <= c < cs.len() && 0 <= k < cs[c].species.len() && !is_declared(
                o,
                #[trigger] cs[c].species@[k]@,
            ) && e == ConfigErrorView::UnknownSpecies(cs[c].kind@, cs[c].species@[k]@),
    decreases cs.len(),
{
    if cs.len() > 0 {
        let t = cs.drop_first();
        law_couplings_checked(o, t);
        lemma_first_unknown(o, cs[0].kind@, cs[0].species@);
        assert forall|c: int| 0 <= c < t.len() implies #[trigger] t[c] == cs[c + 1] by {}
        if first_coupling_error(o, cs) is None {
            assert forall|c: int, k: int|
                0 <= c < cs.len() && 0 <= k < cs[c].species.len() implies is_declared(
                o,
                #[trigger] cs[c].species@[k]@,
            ) by {
                if c > 0 {
                    assert(cs[c] == t[c - 1]);
                } else {
                    assert(is_declared(o, cs[0].species@[k]@));
                }
            }
        }
        if forall|c: int, k: int|
            0 <= c < cs.len() && 0 <= k < cs[c].species.len() ==> is_declared(
                o,
                #[trigger] cs[c].species@[k]@,
            ) {
            assert forall|k: int| 0 <= k < cs[0].species@.len() implies is_declared(
                o,
                #[trigger] cs[0].species@[k]@,
            ) by {
                assert(is_declared(o, cs[0].species@[k]@));
            }
            assert forall|c: int, k: int|
                0 <= c < t.len() && 0 <= k < t[c].species.len() implies is_declared(
                o,
                #[trigger] t[c].species@[k]@,
            ) by {
                assert(t[c] == cs[c + 1]);
                assert(is_declared(o, cs[c + 1].species@[k]@));
            }
        }
        if let Some(e) = first_coupling_error(o, cs) {
            if first_unknown(o, cs[0].kind@, cs[0].species@) is Some {
                let k = choose|k: int|
                    0 <= k < cs[0].species@.len() && !is_declared(o, #[trigger] cs[0].species@[k]@) && e
                        == ConfigErrorView::UnknownSpecies(cs[0].kind@, cs[0].species@[k]@);
                assert(!is_declared(o, cs[0].species@[k]@));
            } else {
                let (c, k) = choose|c: int, k: int|
                    0 <= c < t.len() && 0 <= k < t[c].species.len() && !is_declared(
                        o,
                        #[trigger] t[c].species@[k]@,
                    ) && e == ConfigErrorView::UnknownSpecies(t[c].kind@, t[c].species@[k]@);
                assert(t[c] == cs[c + 1]);
                assert(!is_declared(o, cs[c + 1].species@[k]@));
            }
        }
    }
}

/// Validation checks every field declaration: with a valid spacetime,
/// the first faulty declaration is what the ontology's validation
/// reports.
pub proof fn law_ontology_reports_first_faulty_field(o: OntologyOutline, j: int)
    requires
        spacetime_error(o.spacetime) is None,
        0 <= j < o.fields.len(),
        declaration_faulty(o.fields@[j]),
        forall|i: int| 0 <= i < j ==> !declaration_faulty(#[trigger] o.fields@[i]),
    ensures
        ontology_error(o) == Some(declaration_fault(o.fields@[j])),
{
    law_field_declarations_checked(o.fields@);
}

pub fn text_equals(a: &str, b: &str) -> (r: bool)
    ensures
        r == (a@ == b@),
{
    match compare_text(a, b) {
        TextOrder::Equal => true,
        _ => false,
    }
}

fn free_matches(f: &FieldOutline, kind: &str) -> (r: bool)
    ensures
        r == free_is(*f, kind@),
{
    match &f.free {
        Some(s) => text_equals(s.as_str(), kind),
        None => false,
    }
}

impl OntologyOutline {
    /// The species lists are held as name-keyed maps hold them: within
    /// each list the names are distinct and in increasing name order.
    pub open spec fn wf(&self) -> bool {
        &&& forall|i: int, j: int|
            0 <= i < j < self.particles.len() ==> text_lt(
                #[trigger] self.particles@[i]@,
                #[trigger] self.particles@[j]@,
            )
        &&& forall|i: int, j: int|
            0 <= i < j < self.fields.len() ==> text_lt(
                #[trigger] self.fields@[i].name@,
                #[trigger] self.fields@[j].name@,
            )
    }

    /// Whether a species called `name` is declared.
    pub fn declares(&self, name: &str) -> (r: bool)
        ensures
            r == is_declared(*self, name@),
    {
        let mut i: usize = 0;
        while i < self.particles.len()
            invariant
                i <= self.particles.len(),
                forall|k: int| 0 <= k < i ==> self.particles@[k]@ != name@,
            decreases self.particles.len() - i,
        {
            if text_equals(self.particles[i].as_str(), name) {
                return true;
            }
            i = i + 1;
        }
        let mut j: usize = 0;
        while j < self.fields.len()
            invariant
                j <= self.fields.len(),
                forall|k: int| 0 <= k < self.particles.len() ==> self.particles@[k]@ != name@,
                forall|k: int| 0 <= k < j ==> self.fields@[k].name@ != name@,
            decreases self.fields.len() - j,
        {
            if text_equals(self.fields[j].name.as_str(), name) {
                return true;
            }
            j = j + 1;
        }
        false
    }

    /// Validate the full ontology for internal consistency.
    pub fn validate(&self) -> (r: Result<(), ConfigError>)
        requires
            self.wf(),
        ensures
            match r {
                Ok(_) => ontology_error(*self) is None,
                Err(e) => ontology_error(*self) == Some(e@),
            },
    {
        self.spacetime.validate()?;
        let mut i: usize = 0;
        proof {
            reveal_strlit("schrodinger");
            reveal_strlit("wave");
            assert(self.fields@.skip(0) =~= self.fields@);
        }
        while i < self.fields.len()
            invariant
                i <= self.fields.len(),
                spacetime_error(self.spacetime) is None,
                first_field_error(self.fields@) == first_field_error(self.fields@.skip(i as int)),
            decreases self.fields.len() - i,
        {
            let f = &self.fields[i];
            proof {
                assert(self.fields@.skip(i as int)[0] == *f);
                assert(self.fields@.skip(i as int).drop_first() =~= self.fields@.skip(i + 1));
            }
            if free_matches(f, "schrodinger") && !f.has_length_scale {
                return Err(ConfigError::SchrodingerWithoutLengthScale(f.name.clone()));
            }
            if free_matches(f, "wave") && !f.has_speed {
                return Err(ConfigError::WaveWithoutSpeed(f.name.clone()));
            }
            i = i + 1;
        }
        proof {
            assert(self.fields@.skip(i as int).len() == 0);
        }
        let mut c: usize = 0;
        proof {
            assert(self.coupling@.skip(0) =~= self.coupling@);
        }
        while c < self.coupling.len()
            invariant
                c <= self.coupling.len(),
                spacetime_error(self.spacetime) is None,
                first_field_error(self.fields@) is None,
                first_coupling_error(*self, self.coupling@) == first_coupling_error(
                    *self,
                    self.coupling@.skip(c as int),
                ),
            decreases self.coupling.len() - c,
        {
            let coupling = &self.coupling[c];
            proof {
                assert(self.coupling@.skip(c as int)[0] == *coupling);
                assert(self.coupling@.skip(c as int).drop_first() =~= self.coupling@.skip(c + 1));
                assert(coupling.species@.skip(0) =~= coupling.species@);
            }
            let mut k: usize = 0;
            while k < coupling.species.len()
                invariant
                    k <= coupling.species.len(),
                    spacetime_error(self.spacetime) is None,
                    first_field_error(self.fields@) is None,
                    first_coupling_error(*self, self.coupling@) == first_coupling_error(
                        *self,
                        self.coupling@.skip(c as int),
                    ),
                    c < self.coupling.len(),
                    *coupling == self.coupling@[c as int],
                    first_unknown(*self, coupling.kind@, coupling.species@) == first_unknown(
                        *self,
                        coupling.kind@,
                        coupling.species@.skip(k as int),
                    ),
                decreases coupling.species.len() - k,
            {
                let name = &coupling.species[k];
                proof {
                    assert(coupling.species@.skip(k as int)[0] == *name);
                    assert(coupling.species@.skip(k as int).drop_first() =~= coupling.species@.skip(
                        k + 1,
                    ));
                }
                if !self.declares(name.as_str()) {
                    return Err(ConfigError::UnknownSpecies(coupling.kind.clone(), name.clone()));
                }
                k = k + 1;
            }
            proof {
                assert(coupling.species@.skip(k as int).len() == 0);
            }
            c = c + 1;
        }
        proof {
            assert(self.coupling@.skip(c as int).len() == 0);
        }
        if self.particles.len() == 0 && self.fields.len() == 0 {
            return Err(ConfigError::NoSpecies);
        }
        Ok(())
    }

    /// Whether the simulation has any particle species.
    pub fn has_particles(&self) -> (r: bool)
        ensures
            r == (self.particles.len() > 0),
    {
        self.particles.len() > 0
    }

    /// Whether the simulation has any field species.
    pub fn has_fields(&self) -> (r: bool)
        ensures
            r == (self.fields.len() > 0),
    {
        self.fields.len() > 0
    }

    /// Whether gravity is enabled (via coupling list or legacy lagrangian).
    pub fn has_gravity(&self) -> (r: bool)
        ensures
            r == ((exists|i: int|
                0 <= i < self.coupling.len() && #[trigger] self.coupling@[i].kind@ == "gravity"@)
                || (self.lagrangian matches Some(l) && l.gravity)),
    {
        let mut i: usize = 0;
        while i < self.coupling.len()
            invariant
                i <= self.coupling.len(),
                forall|k: int| 0 <= k < i ==> self.coupling@[k].kind@ != "gravity"@,
            decreases self.coupling.len() - i,
        {
            if text_equals(self.coupling[i].kind.as_str(), "gravity") {
                return true;
            }
            i = i + 1;
        }
        match &self.lagrangian {
            Some(l) => l.gravity,
            None => false,
        }
    }
}

} // verus!
