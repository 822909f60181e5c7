use robotrace_sim::models::{models, ActuatorMode, ContactKind, MassMode, WheelKind};

#[test]
fn default_contact_is_coulomb() {
    assert_eq!(ContactKind::default(), ContactKind::Coulomb);
}

#[test]
fn model_catalogue_ids() {
    let ids: Vec<&str> = models().iter().map(|m| m.id).collect();
    assert_eq!(ids, vec!["rolling", "caster", "ideal", "coulomb", "brush", "static", "quasi_static"]);
    assert_eq!(models()[4].limitations, "reduced empirical law, requires calibration; radial compression is quasi-static");
    assert_eq!(models()[5].parameters, "mass, COM, support geometry, applied downforce");
    assert_eq!(models()[5].state, "none");
    assert_eq!(models()[0].dependencies, "per-wheel impulse solve");
}

#[test]
fn enum_values_are_distinct() {
    assert_ne!(ActuatorMode::Drive, ActuatorMode::Brake);
    assert_ne!(ActuatorMode::Brake, ActuatorMode::Coast);
    assert_ne!(WheelKind::Driven, WheelKind::Caster);
    assert_ne!(WheelKind::Passive, WheelKind::Caster);
    assert_ne!(MassMode::Measured, MassMode::Components);
}
