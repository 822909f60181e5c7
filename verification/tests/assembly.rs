use robotrace_sim::assembly::{validate_assembly, AssemblyCheck, MassCheck, SensorCheck, WheelCheck};
use robotrace_sim::models::WheelKind;

fn wheel(id: &str, kind: WheelKind, motor: Option<&str>) -> WheelCheck {
    WheelCheck {
        id: id.into(),
        kind,
        motor: motor.map(|m| m.to_string()),
        material: "rubber".into(),
        tire_model: "SlipRatioWheel".into(),
        geometry_valid: true,
        tire_values_valid: true,
    }
}

fn mass(id: &str, component: Option<&str>) -> MassCheck {
    MassCheck { id: id.into(), component: component.map(|c| c.to_string()), values_valid: true }
}

fn assembly() -> AssemblyCheck {
    AssemblyCheck {
        sensors: vec![SensorCheck { id: "s1".into(), height_valid: true }],
        fans: vec!["fan:1".into()],
        wheels: vec![
            wheel("wheel:left", WheelKind::Driven, Some("motor:left")),
            wheel("wheel:right", WheelKind::Driven, Some("motor:right")),
            wheel("caster", WheelKind::Caster, None),
        ],
        masses: vec![mass("mass:chassis", Some("chassis")), mass("mass:fan", Some("fan:1")), mass("ballast", None)],
        com_height_valid: true,
        mass_properties: Ok(()),
        has_physics: true,
        support_polygon_len: 3,
        com_outside_support: false,
        solver_geometry: Ok(()),
    }
}

const PER_WHEEL: &str = "Per-wheel planar solver: COM height enters quasi-static load transfer; no pitch/roll or optical height dynamics. Shared motors use equal torque split and mean shaft speed.";
const PLANAR: &str = "Planar reference solver: heights are metadata; no pitch/roll or optical height effect.";

#[test]
fn valid_assembly_gives_the_solver_note() {
    assert_eq!(validate_assembly(&assembly()), Ok(vec![PER_WHEEL.to_string()]));
}

#[test]
fn component_ids_must_be_unique_and_not_reserved() {
    let mut a = assembly();
    a.fans[0] = "battery".into();
    assert_eq!(validate_assembly(&a), Err("assembly: duplicate/empty component ID battery".to_string()));
    let mut a = assembly();
    a.wheels[2].id = "s1".into();
    assert_eq!(validate_assembly(&a), Err("assembly: duplicate/empty component ID s1".to_string()));
    let mut a = assembly();
    a.sensors[0].id = "  ".into();
    assert_eq!(validate_assembly(&a), Err("assembly: duplicate/empty component ID   ".to_string()));
}

#[test]
fn a_support_is_required() {
    let mut a = assembly();
    a.wheels.clear();
    a.masses.clear();
    assert_eq!(validate_assembly(&a), Err("assembly: at least one support is required".to_string()));
}

#[test]
fn wheel_checks_in_order() {
    let mut a = assembly();
    a.wheels[0].geometry_valid = false;
    a.wheels[0].material = "".into();
    assert_eq!(validate_assembly(&a), Err("wheel:left: invalid geometry/inertia".to_string()));
    let mut a = assembly();
    a.wheels[1].material = " ".into();
    assert_eq!(validate_assembly(&a), Err("wheel:right: material name required".to_string()));
    let mut a = assembly();
    a.wheels[1].tire_model = "Magic".into();
    assert_eq!(validate_assembly(&a), Err("wheel:right: unknown tire model".to_string()));
    let mut a = assembly();
    a.wheels[1].tire_model = "CoulombFrictionWheel".into();
    assert!(validate_assembly(&a).is_ok());
    let mut a = assembly();
    a.wheels[2].tire_values_valid = false;
    assert_eq!(validate_assembly(&a), Err("caster: invalid tire".to_string()));
}

#[test]
fn motor_association_must_fit_the_role() {
    let mut a = assembly();
    a.wheels[2].motor = Some("motor:left".into());
    assert_eq!(validate_assembly(&a), Err("caster: invalid motor association".to_string()));
    let mut a = assembly();
    a.wheels[0].motor = None;
    assert_eq!(validate_assembly(&a), Err("wheel:left: invalid motor association".to_string()));
    let mut a = assembly();
    a.wheels[0].motor = Some("motor:fan".into());
    assert_eq!(validate_assembly(&a), Err("wheel:left: invalid motor association".to_string()));
    let mut a = assembly();
    a.wheels[2].kind = WheelKind::Passive;
    assert!(validate_assembly(&a).is_ok());
}

#[test]
fn mass_elements() {
    let mut a = assembly();
    a.masses.push(mass("ballast", None));
    assert_eq!(validate_assembly(&a), Err("assembly: duplicate mass ID".to_string()));
    let mut a = assembly();
    a.masses[2].values_valid = false;
    assert_eq!(validate_assembly(&a), Err("ballast: invalid mass properties".to_string()));
    let mut a = assembly();
    a.masses.push(mass("mass:again", Some("chassis")));
    assert_eq!(validate_assembly(&a), Err("mass:again: absent or multiply counted component chassis".to_string()));
    let mut a = assembly();
    a.masses.push(mass("mass:ghost", Some("ghost")));
    assert_eq!(validate_assembly(&a), Err("mass:ghost: absent or multiply counted component ghost".to_string()));
    let mut a = assembly();
    a.masses.push(mass("mass:wheel", Some("caster")));
    assert!(validate_assembly(&a).is_ok());
}

#[test]
fn heights_mass_properties_and_support() {
    let mut a = assembly();
    a.com_height_valid = false;
    assert_eq!(validate_assembly(&a), Err("assembly: invalid COM height".to_string()));
    let mut a = assembly();
    a.sensors[0].height_valid = false;
    assert_eq!(validate_assembly(&a), Err("s1: invalid sensor height".to_string()));
    let mut a = assembly();
    a.mass_properties = Err("assembly: yaw inertia must be positive".into());
    assert_eq!(validate_assembly(&a), Err("assembly: yaw inertia must be positive".to_string()));
    let mut a = assembly();
    a.support_polygon_len = 2;
    assert_eq!(validate_assembly(&a), Err("assembly: degenerate support polygon".to_string()));
}

#[test]
fn warnings_without_per_wheel_physics() {
    let mut a = assembly();
    a.has_physics = false;
    a.com_outside_support = true;
    a.solver_geometry = Err("assembly incompatible".into());
    assert_eq!(
        validate_assembly(&a),
        Ok(vec![
            PLANAR.to_string(),
            "COM projection is outside support polygon; tipping requires a vertical solver.".to_string(),
            "assembly incompatible".to_string(),
        ])
    );
    let mut a = assembly();
    a.solver_geometry = Err("ignored with per-wheel physics".into());
    assert_eq!(validate_assembly(&a), Ok(vec![PER_WHEEL.to_string()]));
}
