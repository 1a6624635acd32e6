//! Choosing how each species is initialized.
//!
//! The `method` of `[simulation.initialization]` (or a species' own
//! override) and the kinds of species present select an initial-condition
//! generator; unsupported combinations are configuration errors.
use vstd::prelude::*;
use vstd::string::StringExecFns;
use crate::config::ontology::{text_equals, ConfigErrorView};
use crate::config::ConfigError;

verus! {

/// The initial-condition generator for a whole simulation.
#[derive(Clone, Copy, Debug, PartialEq, Eq)]
pub enum InitializationPath {
    /// Particle Zel'dovich displacements from the CDM power spectrum.
    ParticleZeldovich,
    /// Field Zel'dovich wavefunctions; `random` selects the synthetic
    /// red spectrum, and `with_beta` a second field species with the next
    /// seed.
    FieldZeldovich { random: bool, with_beta: bool },
    /// Colliding NFW halos of particles.
    ParticleNfw,
    /// Colliding NFW halos as a field.
    FieldNfw,
    /// Colliding NFW halos, half the density in particles, half in a field.
    MixedNfw,
}

/// The generator for `method` with the given species present, if any.
pub open spec fn initialization_path(
    method: Seq<char>,
    spectrum: Seq<char>,
    n_particles: nat,
    n_fields: nat,
) -> Option<InitializationPath> {
    let p = n_particles > 0;
    let f = n_fields > 0;
    if method == "zeldovich"@ && p && !f {
        Some(InitializationPath::ParticleZeldovich)
    } else if method == "zeldovich"@ && !p && f {
        Some(InitializationPath::FieldZeldovich { random: spectrum == "random"@, with_beta: n_fields >= 2 })
    } else if method == "nfw-group"@ && p && !f {
        Some(InitializationPath::ParticleNfw)
    } else if method == "nfw-group"@ && !p && f {
        Some(InitializationPath::FieldNfw)
    } else if method == "nfw-group"@ && p && f {
        Some(InitializationPath::MixedNfw)
    } else {
        None
    }
}

/// The initial conditions by method and species present: `zeldovich`
/// serves particles alone or fields alone (random spectrum selecting the
/// random density field, and a second field species a second field);
/// `nfw-group` serves particles, fields or both; nothing else is served.
pub proof fn law_initialization_paths(method: Seq<char>, spectrum: Seq<char>, n_particles: nat, n_fields: nat)
    ensures
        initialization_path(method, spectrum, n_particles, n_fields) is Some <==> ((method
            == "zeldovich"@ && ((n_particles > 0) != (n_fields > 0))) || (method == "nfw-group"@ && (
        n_particles > 0 || n_fields > 0))),
        method == "zeldovich"@ && n_particles > 0 && n_fields == 0 ==> initialization_path(
            method,
            spectrum,
            n_particles,
            n_fields,
        ) == Some(InitializationPath::ParticleZeldovich),
        method == "zeldovich"@ && n_particles == 0 && n_fields > 0 ==> initialization_path(
            method,
            spectrum,
            n_particles,
            n_fields,
        ) == Some(
            InitializationPath::FieldZeldovich { random: spectrum == "random"@, with_beta: n_fields >= 2 },
        ),
        method == "nfw-group"@ && n_particles > 0 && n_fields == 0 ==> initialization_path(
            method,
            spectrum,
            n_particles,
            n_fields,
        ) == Some(InitializationPath::ParticleNfw),
        method == "nfw-group"@ && n_particles == 0 && n_fields > 0 ==> initialization_path(
            method,
            spectrum,
            n_particles,
            n_fields,
        ) == Some(InitializationPath::FieldNfw),
        method == "nfw-group"@ && n_particles > 0 && n_fields > 0 ==> initialization_path(
            method,
            spectrum,
            n_particles,
            n_fields,
        ) == Some(InitializationPath::MixedNfw),
{
    reveal_strlit("zeldovich");
    reveal_strlit("nfw-group");
    assert("zeldovich"@[0] != "nfw-group"@[0]);
}

/// Select the initialization from the method, the spectrum and the number
/// of particle and field species.
pub fn plan_initialization(method: &str, spectrum: &str, n_particles: usize, n_fields: usize) -> (r:
    Result<InitializationPath, ConfigError>)
    ensures
        match initialization_path(method@, spectrum@, n_particles as nat, n_fields as nat) {
            Some(path) => r == Ok::<InitializationPath, ConfigError>(path),
            None => r matches Err(e) && e@ == ConfigErrorView::UnsupportedInitialization(
                method@,
                n_particles > 0,
                n_fields > 0,
            ),
        },
{
    let p = n_particles > 0;
    let f = n_fields > 0;
    let zeldovich = text_equals(method, "zeldovich");
    let nfw = text_equals(method, "nfw-group");
    if zeldovich && p && !f {
        Ok(InitializationPath::ParticleZeldovich)
    } else if zeldovich && !p && f {
        Ok(InitializationPath::FieldZeldovich { random: text_equals(spectrum, "random"), with_beta: n_fields >= 2 })
    } else if nfw && p && !f {
        Ok(InitializationPath::ParticleNfw)
    } else if nfw && !p && f {
        Ok(InitializationPath::FieldNfw)
    } else if nfw && p && f {
        Ok(InitializationPath::MixedNfw)
    } else {
        Err(ConfigError::UnsupportedInitialization(String::from_str(method), p, f))
    }
}

/// What the field initializers read of the first field species (in name
/// order): whether it gives `length_scale` and `mass`.
#[derive(Clone, Copy, Debug, PartialEq, Eq)]
pub struct FirstFieldOutline {
    pub has_length_scale: bool,
    pub has_mass: bool,
}

/// Check that a field species exists and that the first one gives the
/// `length_scale` and `mass` from which the field initializers take the
/// smoothing length and the field mass.
pub fn check_field_params(first: Option<FirstFieldOutline>) -> (r: Result<(), ConfigError>)
    ensures
        match first {
            None => r == Err::<(), ConfigError>(ConfigError::NoFieldSpecies),
            Some(f) => if !f.has_length_scale {
                r == Err::<(), ConfigError>(ConfigError::FieldSpeciesRequiresLengthScale)
            } else if !f.has_mass {
                r == Err::<(), ConfigError>(ConfigError::FieldSpeciesRequiresMass)
            } else {
                r is Ok
            },
        },
{
    match first {
        None => Err(ConfigError::NoFieldSpecies),
        Some(f) => if !f.has_length_scale {
            Err(ConfigError::FieldSpeciesRequiresLengthScale)
        } else if !f.has_mass {
            Err(ConfigError::FieldSpeciesRequiresMass)
        } else {
            Ok(())
        },
    }
}

/// The generator for one field species.
#[derive(Clone, Copy, Debug, PartialEq, Eq)]
pub enum FieldInit {
    /// Zel'dovich wavefunction from the CDM power spectrum.
    Zeldovich,
    /// Random multi-scale density field with a band-pass red spectrum.
    RandomDensity,
    /// Colliding NFW halos.
    NfwGroup,
    /// Uniform density at rest.
    Uniform,
    /// A Gaussian wave packet.
    GaussianPacket,
}

/// The generator for one particle species.
#[derive(Clone, Copy, Debug, PartialEq, Eq)]
pub enum ParticleInit {
    Zeldovich,
    NfwGroup,
}

/// A species' own setting if it has one, else the global one.
pub open spec fn resolved(own: Option<Seq<char>>, global: Seq<char>) -> Seq<char> {
    match own {
        Some(s) => s,
        None => global,
    }
}

/// The generator of a field species, given its resolved method and
/// spectrum.
pub open spec fn field_init(method: Seq<char>, spectrum: Seq<char>) -> Option<FieldInit> {
    if method == "zeldovich"@ {
        if spectrum == "random"@ {
            Some(FieldInit::RandomDensity)
        } else {
            Some(FieldInit::Zeldovich)
        }
    } else if method == "nfw-group"@ {
        Some(FieldInit::NfwGroup)
    } else if method == "uniform"@ {
        Some(FieldInit::Uniform)
    } else if method == "gaussian-packet"@ {
        Some(FieldInit::GaussianPacket)
    } else {
        None
    }
}

/// The field generators by method: `zeldovich` gives the random density
/// field exactly when the spectrum is `random` and the Zel'dovich
/// wavefunction for every other spectrum; `nfw-group`, `uniform` and
/// `gaussian-packet` give their own generator whatever the spectrum; any
/// other method has none.
pub proof fn law_field_generators(method: Seq<char>, spectrum: Seq<char>)
    ensures
        method == "zeldovich"@ ==> (field_init(method, spectrum) == Some(FieldInit::RandomDensity)
            <==> spectrum == "random"@),
        method == "zeldovich"@ && spectrum != "random"@ ==> field_init(method, spectrum) == Some(
            FieldInit::Zeldovich,
        ),
        method == "nfw-group"@ ==> field_init(method, spectrum) == Some(FieldInit::NfwGroup),
        method == "uniform"@ ==> field_init(method, spectrum) == Some(FieldInit::Uniform),
        method == "gaussian-packet"@ ==> field_init(method, spectrum) == Some(
            FieldInit::GaussianPacket,
        ),
        method != "zeldovich"@ && method != "nfw-group"@ && method != "uniform"@ && method
            != "gaussian-packet"@ ==> field_init(method, spectrum) is None,
{
    reveal_strlit("zeldovich");
    reveal_strlit("nfw-group");
    reveal_strlit("uniform");
    reveal_strlit("gaussian-packet");
    assert("zeldovich"@.len() == 9 && "nfw-group"@.len() == 9);
    assert("zeldovich"@[0] != "nfw-group"@[0]);
    assert("uniform"@.len() == 7 && "gaussian-packet"@.len() == 15);
}

fn resolve<'a>(own: Option<&'a str>, global: &'a str) -> (r: &'a str)
    ensures
        r@ == resolved(
            match own {
                Some(s) => Some(s@),
                None => None,
            },
            global@,
        ),
{
    match own {
        Some(s) => s,
        None => global,
    }
}

/// Choose the generator of field species `name`: its mass must be given;
/// its method and spectrum fall back to the global ones.
pub fn plan_field_init(
    name: &str,
    has_mass: bool,
    method: Option<&str>,
    global_method: &str,
    spectrum: Option<&str>,
    global_spectrum: &str,
) -> (r: Result<FieldInit, ConfigError>)
    ensures
        ({
            let m = resolved(
                match method {
                    Some(s) => Some(s@),
                    None => None,
                },
                global_method@,
            );
            let sp = resolved(
                match spectrum {
                    Some(s) => Some(s@),
                    None => None,
                },
                global_spectrum@,
            );
            if !has_mass {
                r matches Err(e) && e@ == ConfigErrorView::FieldRequiresMass(name@)
            } else {
                match field_init(m, sp) {
                    Some(fi) => r == Ok::<FieldInit, ConfigError>(fi),
                    None => r matches Err(e) && e@ == ConfigErrorView::UnsupportedFieldMethod(m, name@),
                }
            }
        }),
{
    if !has_mass {
        return Err(ConfigError::FieldRequiresMass(String::from_str(name)));
    }
    let m = resolve(method, global_method);
    let sp = resolve(spectrum, global_spectrum);
    if text_equals(m, "zeldovich") {
        if text_equals(sp, "random") {
            Ok(FieldInit::RandomDensity)
        } else {
            Ok(FieldInit::Zeldovich)
        }
    } else if text_equals(m, "nfw-group") {
        Ok(FieldInit::NfwGroup)
    } else if text_equals(m, "uniform") {
        Ok(FieldInit::Uniform)
    } else if text_equals(m, "gaussian-packet") {
        Ok(FieldInit::GaussianPacket)
    } else {
        Err(ConfigError::UnsupportedFieldMethod(String::from_str(m), String::from_str(name)))
    }
}

/// Choose the generator of particle species `name`; its method falls back
/// to the global one.
pub fn plan_particle_init(name: &str, method: Option<&str>, global_method: &str) -> (r: Result<
    ParticleInit,
    ConfigError,
>)
    ensures
        ({
            let m = resolved(
                match method {
                    Some(s) => Some(s@),
                    None => None,
                },
                global_method@,
            );
            if m == "zeldovich"@ {
                r == Ok::<ParticleInit, ConfigError>(ParticleInit::Zeldovich)
            } else if m == "nfw-group"@ {
                r == Ok::<ParticleInit, ConfigError>(ParticleInit::NfwGroup)
            } else {
                r matches Err(e) && e@ == ConfigErrorView::UnsupportedParticleMethod(m, name@)
            }
        }),
{
    let m = resolve(method, global_method);
    if text_equals(m, "zeldovich") {
        Ok(ParticleInit::Zeldovich)
    } else if text_equals(m, "nfw-group") {
        Ok(ParticleInit::NfwGroup)
    } else {
        Err(ConfigError::UnsupportedParticleMethod(String::from_str(m), String::from_str(name)))
    }
}

// ============================================================================
// All species
// ============================================================================

/// What species planning reads of a field species: its name, whether its
/// mass is given, and its own method and spectrum, if any.
pub struct FieldSpeciesOutline {
    pub name: String,
    pub has_mass: bool,
    pub method: Option<String>,
    pub spectrum: Option<String>,
}

/// What species planning reads of a particle species: its name and its
/// own method, if any.
pub struct ParticleSpeciesOutline {
    pub name: String,
    pub method: Option<String>,
}

/// The text of an optional string.
pub open spec fn opt_text(o: Option<String>) -> Option<Seq<char>> {
    match o {
        Some(s) => Some(s@),
        None => None,
    }
}

/// The generator of one field species, or the error planning it gives.
pub open spec fn field_plan(f: FieldSpeciesOutline, global_method: Seq<char>, global_spectrum: Seq<
    char,
>) -> Result<FieldInit, ConfigErrorView> {
    let m = resolved(opt_text(f.method), global_method);
    let sp = resolved(opt_text(f.spectrum), global_spectrum);
    if !f.has_mass {
        Err(ConfigErrorView::FieldRequiresMass(f.name@))
    } else {
        match field_init(m, sp) {
            Some(fi) => Ok(fi),
            None => Err(ConfigErrorView::UnsupportedFieldMethod(m, f.name@)),
        }
    }
}

/// The generator of one particle species, or the error planning it gives.
pub open spec fn particle_plan(p: ParticleSpeciesOutline, global_method: Seq<char>) -> Result<
    ParticleInit,
    ConfigErrorView,
> {
    let m = resolved(opt_text(p.method), global_method);
    if m == "zeldovich"@ {
        Ok(ParticleInit::Zeldovich)
    } else if m == "nfw-group"@ {
        Ok(ParticleInit::NfwGroup)
    } else {
        Err(ConfigErrorView::UnsupportedParticleMethod(m, p.name@))
    }
}

fn opt_str(o: &Option<String>) -> (r: Option<&str>)
    ensures
        match r {
            Some(x) => opt_text(*o) == Some(x@),
            None => opt_text(*o) is None,
        },
{
    match o {
        Some(s) => Some(s.as_str()),
        None => None,
    }
}

/// The field species before position `k` all plan without error.
pub open spec fn fields_plan_upto(
    fields: Seq<FieldSpeciesOutline>,
    global_method: Seq<char>,
    global_spectrum: Seq<char>,
    k: int,
) -> bool {
    forall|j: int| 0 <= j < k ==> (#[trigger] field_plan(fields[j], global_method, global_spectrum)) is Ok
}

/// The particle species before position `k` all plan without error.
pub open spec fn particles_plan_upto(
    particles: Seq<ParticleSpeciesOutline>,
    global_method: Seq<char>,
    k: int,
) -> bool {
    forall|j: int| 0 <= j < k ==> (#[trigger] particle_plan(particles[j], global_method)) is Ok
}

/// Field species `k` is the first to fail, with error `e`.
pub open spec fn first_field_failure(
    fields: Seq<FieldSpeciesOutline>,
    global_method: Seq<char>,
    global_spectrum: Seq<char>,
    k: int,
    e: ConfigErrorView,
) -> bool {
    &&& 0 <= k < fields.len()
    &&& fields_plan_upto(fields, global_method, global_spectrum, k)
    &&& field_plan(fields[k], global_method, global_spectrum) == Err::<FieldInit, ConfigErrorView>(e)
}

/// Particle species `k` is the first to fail, with error `e`.
pub open spec fn first_particle_failure(
    particles: Seq<ParticleSpeciesOutline>,
    global_method: Seq<char>,
    k: int,
    e: ConfigErrorView,
) -> bool {
    &&& 0 <= k < particles.len()
    &&& particles_plan_upto(particles, global_method, k)
    &&& particle_plan(particles[k], global_method) == Err::<ParticleInit, ConfigErrorView>(e)
}

/// Plan the initialization of every species: each field species in turn,
/// then each particle species, each with its generator and its seed (the
/// run seed plus the species' position, fields counted first). Planning
/// stops at the first species that fails, fields before particles.
pub fn plan_species(
    fields: &Vec<FieldSpeciesOutline>,
    particles: &Vec<ParticleSpeciesOutline>,
    global_method: &str,
    global_spectrum: &str,
    seed: u64,
) -> (r: Result<(Vec<(FieldInit, u64)>, Vec<(ParticleInit, u64)>), ConfigError>)
    requires
        seed + fields.len() + particles.len() <= u64::MAX + 1,
    ensures
        r matches Ok(plans) ==> {
            let fs = plans.0;
            let ps = plans.1;
            &&& fs.len() == fields.len()
            &&& ps.len() == particles.len()
            &&& forall|k: int|
                0 <= k < fields.len() ==> field_plan(
                    #[trigger] fields@[k],
                    global_method@,
                    global_spectrum@,
                ) == Ok::<FieldInit, ConfigErrorView>(fs@[k].0) && fs@[k].1 == seed + k
            &&& forall|k: int|
                0 <= k < particles.len() ==> particle_plan(#[trigger] particles@[k], global_method@)
                    == Ok::<ParticleInit, ConfigErrorView>(ps@[k].0) && ps@[k].1 == seed
                    + fields.len() + k
        },
        r matches Err(e) ==> (exists|k: int|
            #[trigger] first_field_failure(fields@, global_method@, global_spectrum@, k, e@)) || (
        fields_plan_upto(fields@, global_method@, global_spectrum@, fields.len() as int) && exists|
            k: int,
        | #[trigger] first_particle_failure(particles@, global_method@, k, e@)),
{
    let mut fs: Vec<(FieldInit, u64)> = Vec::new();
    let mut k: usize = 0;
    while k < fields.len()
        invariant
            k <= fields.len(),
            seed + fields.len() + particles.len() <= u64::MAX + 1,
            fs.len() == k,
            forall|j: int|
                0 <= j < k ==> field_plan(#[trigger] fields@[j], global_method@, global_spectrum@) == Ok::<
                    FieldInit,
                    ConfigErrorView,
                >(fs@[j].0) && fs@[j].1 == seed + j,
        decreases fields.len() - k,
    {
        let f = &fields[k];
        let m = opt_str(&f.method);
        let sp = opt_str(&f.spectrum);
        match plan_field_init(f.name.as_str(), f.has_mass, m, global_method, sp, global_spectrum) {
            Ok(fi) => {
                fs.push((fi, seed + k as u64));
            },
            Err(e) => {
                proof {
                    assert(fields_plan_upto(fields@, global_method@, global_spectrum@, k as int));
                    assert(first_field_failure(fields@, global_method@, global_spectrum@, k as int, e@));
                }
                return Err(e);
            },
        }
        k = k + 1;
    }
    proof {
        assert(fields_plan_upto(fields@, global_method@, global_spectrum@, fields.len() as int));
    }
    let nf = fields.len();
    let mut ps: Vec<(ParticleInit, u64)> = Vec::new();
    let mut k: usize = 0;
    while k < particles.len()
        invariant
            k <= particles.len(),
            nf == fields.len(),
            seed + fields.len() + particles.len() <= u64::MAX + 1,
            fields_plan_upto(fields@, global_method@, global_spectrum@, fields.len() as int),
            ps.len() == k,
            forall|j: int|
                0 <= j < k ==> particle_plan(#[trigger] particles@[j], global_method@) == Ok::<
                    ParticleInit,
                    ConfigErrorView,
                >(ps@[j].0) && ps@[j].1 == seed + fields.len() + j,
        decreases particles.len() - k,
    {
        let p = &particles[k];
        let m = opt_str(&p.method);
        match plan_particle_init(p.name.as_str(), m, global_method) {
            Ok(pi) => {
                ps.push((pi, seed + nf as u64 + k as u64));
            },
            Err(e) => {
                proof {
                    assert(particles_plan_upto(particles@, global_method@, k as int));
                    assert(first_particle_failure(particles@, global_method@, k as int, e@));
                }
                return Err(e);
            },
        }
        k = k + 1;
    }
    Ok((fs, ps))
}

} // verus!
