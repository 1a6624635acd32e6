//! Configuration: layered TOML trees, the ontology, output and
//! simulation blocks, and their validation.
pub mod tree;
pub mod merge_laws;

pub mod toml_bridge;
pub mod layers;
pub mod ontology;
pub mod output;
pub mod simulation;

use vstd::prelude::*;

verus! {

/// Which required FLRW parameter is missing.
#[derive(Clone, Copy, Debug, PartialEq, Eq)]
pub enum FlrwParameter {
    Hubble,
    OmegaM,
    OmegaV,
}

/// Errors in reading, merging and validating configuration.
#[derive(Clone, Debug, PartialEq, Eq)]
pub enum ConfigError {
    /// A TOML document did not parse; carries the parser's message.
    Parse(String),
    /// An FLRW spacetime lacks a required parameter.
    FlrwRequires(FlrwParameter),
    /// A field with `free = "schrodinger"` has no `length_scale`.
    SchrodingerWithoutLengthScale(String),
    /// A field with `free = "wave"` has no `speed`.
    WaveWithoutSpeed(String),
    /// A coupling of the given kind names a species nobody declared.
    UnknownSpecies(String, String),
    /// The ontology declares neither particles nor fields.
    NoSpecies,
    /// An expanding spacetime needs `scale_factor_range`.
    ScaleFactorRangeRequired,
    /// A static spacetime needs `time_range`.
    TimeRangeRequired,
    /// No initialization exists for this method with these species
    /// kinds: (method, has particles, has fields).
    UnsupportedInitialization(String, bool, bool),
    /// A field species has no initialization of this method:
    /// (method, species).
    UnsupportedFieldMethod(String, String),
    /// A particle species has no initialization of this method:
    /// (method, species).
    UnsupportedParticleMethod(String, String),
    /// A field species lacks its mass.
    FieldRequiresMass(String),
    /// The field parameters were asked for, but no field species exists.
    NoFieldSpecies,
    /// The first field species lacks `length_scale`.
    FieldSpeciesRequiresLengthScale,
    /// The first field species lacks `mass`.
    FieldSpeciesRequiresMass,
    /// A recording was asked of a directory holding no snapshot files.
    NoSnapshotsFound(String),
}

} // verus!
