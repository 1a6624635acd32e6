use hermes_rs::config::ontology::{
    default_kernel, total_count, Coupling, FieldGrade, FieldOutline, LagrangianLegacy,
    OntologyOutline, SpacetimeBackground, SpacetimeOutline,
};
use hermes_rs::config::output::{
    default_colormap, default_diagnostics_interval, default_gif_point_radius,
    default_gif_resolution, default_log_level, default_progress, default_snapshot_interval,
    DiagnosticsConfig,
    LoggingConfig, SnapshotsConfig,
};
use hermes_rs::config::simulation::{default_method, default_seed, default_spectrum, default_stepping, validate_engine, TimeOutline};
use hermes_rs::config::{ConfigError, FlrwParameter};

fn flrw() -> SpacetimeOutline {
    SpacetimeOutline { background: SpacetimeBackground::Flrw, has_hubble: true, has_omega_m: true, has_omega_v: true }
}

fn field(name: &str, free: Option<&str>, has_length_scale: bool, has_speed: bool) -> FieldOutline {
    FieldOutline { name: name.to_string(), free: free.map(String::from), has_length_scale, has_speed }
}

fn ontology() -> OntologyOutline {
    OntologyOutline {
        spacetime: flrw(),
        particles: vec!["dm".to_string()],
        fields: vec![field("psi", Some("schrodinger"), true, false)],
        coupling: vec![Coupling { kind: "gravity".to_string(), species: vec!["dm".to_string(), "psi".to_string()] }],
        lagrangian: None,
    }
}

#[test]
fn valid_ontology() {
    let o = ontology();
    assert_eq!(o.validate(), Ok(()));
    assert!(o.has_particles());
    assert!(o.has_fields());
    assert!(o.has_gravity());
}

#[test]
fn flrw_requires_parameters_in_order() {
    let mut o = ontology();
    o.spacetime.has_omega_m = false;
    o.spacetime.has_omega_v = false;
    assert_eq!(o.validate(), Err(ConfigError::FlrwRequires(FlrwParameter::OmegaM)));
    o.spacetime.has_hubble = false;
    assert_eq!(o.validate(), Err(ConfigError::FlrwRequires(FlrwParameter::Hubble)));
    o.spacetime.background = SpacetimeBackground::Static;
    assert_eq!(o.validate(), Ok(()));
    assert!(!o.spacetime.is_expanding());
}

#[test]
fn field_declarations_are_checked() {
    let mut o = ontology();
    o.fields = vec![field("a", Some("wave"), false, false), field("b", Some("schrodinger"), false, false)];
    assert_eq!(o.validate(), Err(ConfigError::WaveWithoutSpeed("a".to_string())));
    o.fields = vec![field("b", Some("schrodinger"), false, true)];
    o.coupling = vec![];
    assert_eq!(o.validate(), Err(ConfigError::SchrodingerWithoutLengthScale("b".to_string())));
    o.fields = vec![field("c", None, false, false)];
    assert_eq!(o.validate(), Ok(()));
}

#[test]
fn couplings_must_name_declared_species() {
    let mut o = ontology();
    o.coupling.push(Coupling { kind: "electromagnetic".to_string(), species: vec!["dm".to_string(), "ghost".to_string()] });
    assert_eq!(o.validate(), Err(ConfigError::UnknownSpecies("electromagnetic".to_string(), "ghost".to_string())));
}

#[test]
fn at_least_one_species() {
    let mut o = ontology();
    o.particles.clear();
    o.fields.clear();
    o.coupling.clear();
    assert_eq!(o.validate(), Err(ConfigError::NoSpecies));
    assert!(!o.has_particles());
    assert!(!o.has_gravity());
    o.lagrangian = Some(LagrangianLegacy { gravity: true, electromagnetic: vec![] });
    assert!(o.has_gravity());
}

#[test]
fn time_block_matches_spacetime() {
    let o = ontology();
    assert_eq!(validate_engine(&o, &TimeOutline { has_scale_factor_range: false, has_time_range: true }), Err(ConfigError::ScaleFactorRangeRequired));
    assert_eq!(validate_engine(&o, &TimeOutline { has_scale_factor_range: true, has_time_range: false }), Ok(()));
    let t = TimeOutline { has_scale_factor_range: true, has_time_range: false };
    assert_eq!(t.validate(false), Err(ConfigError::TimeRangeRequired));
}

#[test]
fn field_grades() {
    assert!(FieldGrade::Multi(vec![0, 3]).is_even_subalgebra());
    assert!(!FieldGrade::Multi(vec![3, 0]).is_even_subalgebra());
    assert!(!FieldGrade::Single(0).is_even_subalgebra());
    assert!(FieldGrade::Single(2).is_single());
    assert!(!FieldGrade::Multi(vec![2]).is_single());
}

#[test]
fn defaults() {
    assert_eq!(default_kernel(), "cic");
    assert_eq!(default_stepping(), "log");
    assert_eq!(default_method(), "zeldovich");
    assert_eq!(default_seed(), 42);
    assert_eq!(default_spectrum(), "power");
    assert_eq!(default_colormap(), "hot");
    assert_eq!(default_gif_resolution(), 512);
    assert_eq!(default_gif_point_radius(), 1);
    assert_eq!(SnapshotsConfig::default().interval, 1);
    assert_eq!(SnapshotsConfig::default().directory, "");
    assert_eq!(DiagnosticsConfig::default().interval, 10);
    let l = LoggingConfig::default();
    assert_eq!(l.level, "info");
    assert!(l.progress);
    assert_eq!(total_count(4), 64);
}

#[test]
fn declared_species_and_text_equality() {
    let o = ontology();
    assert!(o.declares("dm"));
    assert!(o.declares("psi"));
    assert!(!o.declares("baryons"));
    assert!(!o.declares(""));
    assert!(hermes_rs::config::ontology::text_equals("gravity", "gravity"));
    assert!(!hermes_rs::config::ontology::text_equals("gravity", "gravit"));
}

#[test]
fn output_defaults() {
    assert_eq!(default_snapshot_interval(), 1);
    assert_eq!(default_diagnostics_interval(), 10);
    assert_eq!(default_log_level(), "info");
    assert!(default_progress());
}
