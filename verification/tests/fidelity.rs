use robotrace_sim::fidelity::{preset_models, validate_fidelity, FidelityCheck};

#[test]
fn presets() {
    let p = preset_models("ideal").unwrap();
    assert_eq!((p.contact, p.normal, p.rolling), ("ideal", "static", false));
    let p = preset_models("simplified").unwrap();
    assert_eq!((p.contact, p.normal, p.rolling), ("coulomb", "quasi_static", true));
    let p = preset_models("realistic").unwrap();
    assert_eq!((p.contact, p.normal, p.rolling), ("brush", "quasi_static", true));
    assert_eq!(preset_models("Realistic").err(), Some("unknown physics preset: Realistic".to_string()));
    assert_eq!(preset_models(" ideal").err(), Some("unknown physics preset:  ideal".to_string()));
}

fn check(preset: &str, contact: &str, normal: &str, rolling: bool) -> FidelityCheck {
    FidelityCheck {
        preset: preset.into(),
        contact: contact.into(),
        normal: normal.into(),
        rolling,
        positive_valid: [true; 4],
        nonnegative_valid: [true; 3],
        load_exponent_at_most_one: true,
        refinements_zero: true,
    }
}

#[test]
fn presets_validate() {
    assert_eq!(validate_fidelity(&check("ideal", "ideal", "static", false)), Ok(()));
    assert_eq!(validate_fidelity(&check("simplified", "coulomb", "quasi_static", true)), Ok(()));
    assert_eq!(validate_fidelity(&check("realistic", "brush", "quasi_static", true)), Ok(()));
}

#[test]
fn unknown_names() {
    assert_eq!(
        validate_fidelity(&check("fast", "brush", "static", true)),
        Err("unknown physics preset: fast".to_string())
    );
    assert_eq!(
        validate_fidelity(&check("realistic", "magic", "static", true)),
        Err("unknown contact/normal model".to_string())
    );
    assert_eq!(
        validate_fidelity(&check("realistic", "brush", "dynamic", true)),
        Err("unknown contact/normal model".to_string())
    );
}

#[test]
fn numeric_parameters_in_order() {
    let mut c = check("realistic", "brush", "quasi_static", true);
    c.positive_valid = [true, false, false, true];
    assert_eq!(validate_fidelity(&c), Err("physics.longitudinal_stiffness must be positive and finite".to_string()));
    c.positive_valid = [true, true, true, false];
    assert_eq!(validate_fidelity(&c), Err("physics.caster_trail_m must be positive and finite".to_string()));
    c.positive_valid = [true; 4];
    c.nonnegative_valid = [true, true, false];
    assert_eq!(validate_fidelity(&c), Err("physics.radial_stiffness_n_m must be nonnegative and finite".to_string()));
    c.nonnegative_valid = [true; 3];
    c.load_exponent_at_most_one = false;
    assert_eq!(validate_fidelity(&c), Err("load_exponent must be <= 1".to_string()));
}

#[test]
fn refinements_need_brush_and_ideal_needs_static() {
    let mut c = check("simplified", "coulomb", "quasi_static", true);
    c.refinements_zero = false;
    assert_eq!(validate_fidelity(&c), Err("tire refinements require brush contact".to_string()));
    c.contact = "brush".into();
    assert_eq!(validate_fidelity(&c), Ok(()));
    assert_eq!(
        validate_fidelity(&check("ideal", "ideal", "quasi_static", false)),
        Err("ideal kinematics requires static normal and rolling disabled".to_string())
    );
    assert_eq!(
        validate_fidelity(&check("ideal", "ideal", "static", true)),
        Err("ideal kinematics requires static normal and rolling disabled".to_string())
    );
}
