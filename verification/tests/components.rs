use robotrace_sim::components::{
    component_for_edit, component_ids, duplicate_component, find_component, legacy_assembly,
    remove_component, Assembly, ComponentRef, LegacyParts, MassPart, Part, RobotParts,
};

fn part(id: &str, data: u32) -> Part<u32> {
    Part { id: id.to_string(), data }
}

fn mass(id: &str, component: Option<&str>, data: u32) -> MassPart<u32> {
    MassPart { id: id.to_string(), component: component.map(|c| c.to_string()), data }
}

fn legacy() -> LegacyParts<u32, u32> {
    LegacyParts {
        left_front: 1,
        left_rear: 2,
        right_front: 3,
        right_rear: 4,
        chassis_mass: 500,
        placeholder_mass: 0,
    }
}

type Robot = RobotParts<u32, u32, u32, u32, u32>;

fn explicit_robot() -> Robot {
    RobotParts {
        assembly: Some(Assembly {
            wheels: vec![part("left", 1), part("right", 2)],
            masses: vec![mass("battery", None, 9), mass("m_left", Some("left"), 8), mass("m_s1", Some("s1"), 7)],
        }),
        legacy: legacy(),
        sensors: vec![part("s0", 3), part("s1", 4)],
        optical: vec![part("s0", 5), part("s1", 6)],
        fans: vec![part("fan", 7)],
    }
}

fn legacy_robot() -> Robot {
    RobotParts {
        assembly: None,
        legacy: legacy(),
        sensors: vec![part("s0", 3)],
        optical: vec![],
        fans: vec![part("fan", 7)],
    }
}

fn ids<T>(parts: &[Part<T>]) -> Vec<String> {
    parts.iter().map(|p| p.id.clone()).collect()
}

fn mass_ids<T>(masses: &[MassPart<T>]) -> Vec<String> {
    masses.iter().map(|m| m.id.clone()).collect()
}

#[test]
fn component_ids_list_wheels_then_sensors_then_fans() {
    assert_eq!(component_ids(&explicit_robot()), vec!["left", "right", "s0", "s1", "fan"]);
}

#[test]
fn a_legacy_robot_has_the_four_drivetrain_wheels() {
    assert_eq!(
        component_ids(&legacy_robot()),
        vec!["wheel:left:front", "wheel:left:rear", "wheel:right:front", "wheel:right:rear", "s0", "fan"]
    );
}

#[test]
fn legacy_assembly_layout() {
    let a = legacy_assembly(&legacy(), &vec![part("fan", 7)]);
    assert_eq!(ids(&a.wheels), vec!["wheel:left:front", "wheel:left:rear", "wheel:right:front", "wheel:right:rear"]);
    assert_eq!(a.wheels.iter().map(|w| w.data).collect::<Vec<_>>(), vec![1, 2, 3, 4]);
    assert_eq!(
        mass_ids(&a.masses),
        vec!["mass:chassis", "mass:battery", "mass:motor:left", "mass:motor:right", "mass:fan"]
    );
    assert_eq!(a.masses[0].component.as_deref(), Some("chassis"));
    assert_eq!(a.masses[0].data, 500);
    assert_eq!(a.masses[4].component.as_deref(), Some("fan"));
    assert_eq!(a.masses[4].data, 0);
}

#[test]
fn removing_a_sensor_drops_its_masses_and_optical_settings() {
    let mut r = explicit_robot();
    assert_eq!(remove_component(&mut r, "s1"), Ok(()));
    assert_eq!(ids(&r.sensors), vec!["s0"]);
    assert_eq!(ids(&r.optical), vec!["s0"]);
    assert_eq!(r.optical[0].data, 5);
    let a = r.assembly.as_ref().unwrap();
    assert_eq!(ids(&a.wheels), vec!["left", "right"]);
    assert_eq!(mass_ids(&a.masses), vec!["battery", "m_left"]);
    assert_eq!(ids(&r.fans), vec!["fan"]);
}

#[test]
fn removing_from_a_legacy_robot_makes_its_assembly_explicit() {
    let mut r = legacy_robot();
    assert_eq!(remove_component(&mut r, "fan"), Ok(()));
    let a = r.assembly.as_ref().unwrap();
    assert_eq!(a.wheels.len(), 4);
    assert_eq!(mass_ids(&a.masses), vec!["mass:chassis", "mass:battery", "mass:motor:left", "mass:motor:right"]);
    assert!(r.fans.is_empty());
    assert_eq!(remove_component(&mut r, "wheel:left:rear"), Ok(()));
    assert_eq!(
        component_ids(&r),
        vec!["wheel:left:front", "wheel:right:front", "wheel:right:rear", "s0"]
    );
}

#[test]
fn unknown_component_is_refused_unchanged() {
    let mut r = legacy_robot();
    assert_eq!(remove_component(&mut r, "battery"), Err("unknown component battery".to_string()));
    assert!(r.assembly.is_none());
    assert_eq!(component_ids(&r).len(), 6);
}

#[test]
fn components_are_found_wheels_first() {
    let r = explicit_robot();
    assert_eq!(find_component(&r, "right"), Some(ComponentRef::Wheel(1)));
    assert_eq!(find_component(&r, "s1"), Some(ComponentRef::Sensor(1)));
    assert_eq!(find_component(&r, "fan"), Some(ComponentRef::Fan(0)));
    assert_eq!(find_component(&r, "battery"), None);
    assert_eq!(find_component(&legacy_robot(), "wheel:right:rear"), Some(ComponentRef::Wheel(3)));
}

#[test]
fn editing_a_component_makes_the_assembly_explicit() {
    let mut r = legacy_robot();
    assert_eq!(component_for_edit(&mut r, "s0"), Ok(ComponentRef::Sensor(0)));
    assert!(r.assembly.is_some());
    let mut r = legacy_robot();
    assert_eq!(component_for_edit(&mut r, "ghost"), Err("unknown component ghost".to_string()));
    assert_eq!(r.assembly.as_ref().unwrap().wheels.len(), 4);
}

#[test]
fn duplicating_a_sensor_copies_its_settings_and_mass() {
    let mut r = explicit_robot();
    assert_eq!(duplicate_component(&mut r, "s1", "s9".to_string(), "m9".to_string()), Ok("s9".to_string()));
    assert_eq!(ids(&r.sensors), vec!["s0", "s1", "s9"]);
    assert_eq!(r.sensors[2].data, 4);
    assert_eq!(ids(&r.optical), vec!["s0", "s1", "s9"]);
    assert_eq!(r.optical[2].data, 6);
    let a = r.assembly.as_ref().unwrap();
    assert_eq!(mass_ids(&a.masses), vec!["battery", "m_left", "m_s1", "m9"]);
    assert_eq!(a.masses[3].component.as_deref(), Some("s9"));
    assert_eq!(a.masses[3].data, 7);
}

#[test]
fn duplicating_a_legacy_wheel_and_an_unknown_id() {
    let mut r = legacy_robot();
    assert_eq!(
        duplicate_component(&mut r, "wheel:right:front", "w5".to_string(), "m5".to_string()),
        Ok("w5".to_string())
    );
    let a = r.assembly.as_ref().unwrap();
    assert_eq!(a.wheels.len(), 5);
    assert_eq!(a.wheels[4].id, "w5");
    assert_eq!(a.wheels[4].data, 3);
    assert_eq!(a.masses.len(), 5);
    let mut r = legacy_robot();
    assert_eq!(
        duplicate_component(&mut r, "fan", "fan2".to_string(), "m6".to_string()),
        Ok("fan2".to_string())
    );
    assert_eq!(ids(&r.fans), vec!["fan", "fan2"]);
    let a = r.assembly.as_ref().unwrap();
    assert_eq!(a.masses[5].id, "m6");
    assert_eq!(a.masses[5].component.as_deref(), Some("fan2"));
    let mut r = legacy_robot();
    assert_eq!(
        duplicate_component(&mut r, "nope", "x".to_string(), "y".to_string()),
        Err("unknown component nope".to_string())
    );
    assert!(r.assembly.is_some());
    assert_eq!(r.sensors.len(), 1);
}
