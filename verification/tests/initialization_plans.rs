use hermes_rs::config::ConfigError;
use hermes_rs::initialization::{
    check_field_params, plan_field_init, plan_initialization, plan_particle_init, plan_species,
    FieldInit, FieldSpeciesOutline, FirstFieldOutline, InitializationPath, ParticleInit,
    ParticleSpeciesOutline,
};

#[test]
fn initialization_paths_by_method_and_species() {
    assert_eq!(
        plan_initialization("zeldovich", "power", 1, 0),
        Ok(InitializationPath::ParticleZeldovich)
    );
    assert_eq!(
        plan_initialization("zeldovich", "random", 0, 2),
        Ok(InitializationPath::FieldZeldovich { random: true, with_beta: true })
    );
    assert_eq!(
        plan_initialization("zeldovich", "power", 0, 1),
        Ok(InitializationPath::FieldZeldovich { random: false, with_beta: false })
    );
    assert_eq!(plan_initialization("nfw-group", "power", 3, 0), Ok(InitializationPath::ParticleNfw));
    assert_eq!(plan_initialization("nfw-group", "power", 0, 1), Ok(InitializationPath::FieldNfw));
    assert_eq!(plan_initialization("nfw-group", "power", 1, 1), Ok(InitializationPath::MixedNfw));
}

#[test]
fn unsupported_initializations_are_errors() {
    assert_eq!(
        plan_initialization("zeldovich", "power", 1, 1),
        Err(ConfigError::UnsupportedInitialization("zeldovich".to_string(), true, true))
    );
    assert_eq!(
        plan_initialization("nfw-group", "power", 0, 0),
        Err(ConfigError::UnsupportedInitialization("nfw-group".to_string(), false, false))
    );
    assert_eq!(
        plan_initialization("lattice", "power", 1, 0),
        Err(ConfigError::UnsupportedInitialization("lattice".to_string(), true, false))
    );
}

#[test]
fn field_species_fall_back_to_global_settings() {
    assert_eq!(
        plan_field_init("psi", true, None, "zeldovich", None, "random"),
        Ok(FieldInit::RandomDensity)
    );
    assert_eq!(
        plan_field_init("psi", true, None, "zeldovich", Some("power"), "random"),
        Ok(FieldInit::Zeldovich)
    );
    assert_eq!(
        plan_field_init("psi", true, Some("uniform"), "zeldovich", None, "power"),
        Ok(FieldInit::Uniform)
    );
    assert_eq!(
        plan_field_init("psi", true, Some("gaussian-packet"), "zeldovich", None, "power"),
        Ok(FieldInit::GaussianPacket)
    );
    assert_eq!(
        plan_field_init("psi", true, None, "nfw-group", None, "power"),
        Ok(FieldInit::NfwGroup)
    );
}

#[test]
fn field_species_errors() {
    assert_eq!(
        plan_field_init("psi", false, None, "zeldovich", None, "power"),
        Err(ConfigError::FieldRequiresMass("psi".to_string()))
    );
    assert_eq!(
        plan_field_init("psi", true, Some("vortex"), "zeldovich", None, "power"),
        Err(ConfigError::UnsupportedFieldMethod("vortex".to_string(), "psi".to_string()))
    );
}

#[test]
fn particle_species_plans() {
    assert_eq!(plan_particle_init("dm", None, "zeldovich"), Ok(ParticleInit::Zeldovich));
    assert_eq!(plan_particle_init("dm", Some("nfw-group"), "zeldovich"), Ok(ParticleInit::NfwGroup));
    assert_eq!(
        plan_particle_init("dm", Some("uniform"), "zeldovich"),
        Err(ConfigError::UnsupportedParticleMethod("uniform".to_string(), "dm".to_string()))
    );
}

#[test]
fn field_parameters_need_length_scale_and_mass() {
    assert_eq!(check_field_params(None), Err(ConfigError::NoFieldSpecies));
    assert_eq!(
        check_field_params(Some(FirstFieldOutline { has_length_scale: false, has_mass: true })),
        Err(ConfigError::FieldSpeciesRequiresLengthScale)
    );
    assert_eq!(
        check_field_params(Some(FirstFieldOutline { has_length_scale: true, has_mass: false })),
        Err(ConfigError::FieldSpeciesRequiresMass)
    );
    assert_eq!(
        check_field_params(Some(FirstFieldOutline { has_length_scale: true, has_mass: true })),
        Ok(())
    );
}

fn field_species(name: &str, has_mass: bool, method: Option<&str>) -> FieldSpeciesOutline {
    FieldSpeciesOutline {
        name: name.to_string(),
        has_mass,
        method: method.map(String::from),
        spectrum: None,
    }
}

fn particle_species(name: &str, method: Option<&str>) -> ParticleSpeciesOutline {
    ParticleSpeciesOutline { name: name.to_string(), method: method.map(String::from) }
}

#[test]
fn all_species_are_planned_with_seeds_in_order() {
    let fields = vec![field_species("alpha", true, None), field_species("beta", true, Some("uniform"))];
    let particles = vec![particle_species("dm", None), particle_species("halo", Some("nfw-group"))];
    let (fs, ps) = plan_species(&fields, &particles, "zeldovich", "random", 42).unwrap();
    assert_eq!(fs, vec![(FieldInit::RandomDensity, 42), (FieldInit::Uniform, 43)]);
    assert_eq!(ps, vec![(ParticleInit::Zeldovich, 44), (ParticleInit::NfwGroup, 45)]);
}

#[test]
fn species_planning_stops_at_the_first_failure() {
    let fields = vec![
        field_species("alpha", true, None),
        field_species("beta", false, None),
        field_species("gamma", true, Some("vortex")),
    ];
    let particles = vec![particle_species("dm", Some("lattice"))];
    assert_eq!(
        plan_species(&fields, &particles, "zeldovich", "power", 0),
        Err(ConfigError::FieldRequiresMass("beta".to_string()))
    );
    let fields = vec![field_species("alpha", true, None)];
    let particles = vec![particle_species("dm", None), particle_species("gas", Some("lattice"))];
    assert_eq!(
        plan_species(&fields, &particles, "zeldovich", "power", 0),
        Err(ConfigError::UnsupportedParticleMethod("lattice".to_string(), "gas".to_string()))
    );
    assert_eq!(plan_species(&vec![], &vec![], "zeldovich", "power", u64::MAX), Ok((vec![], vec![])));
}
