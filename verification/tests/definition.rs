use robotrace_sim::definition::{
    display_color, move_item, validate_definition, DefinitionCheck, ItemCheck, MarkKind,
    ParametricCheck, SegmentCheck, StartSource,
};

#[test]
fn move_item_reorders_without_changing_items() {
    let mut v = vec!["a", "b", "c", "d"];
    assert!(move_item(&mut v, 0, 2).is_ok());
    assert_eq!(v, vec!["b", "c", "a", "d"]);
    assert!(move_item(&mut v, 2, 0).is_ok());
    assert_eq!(v, vec!["a", "b", "c", "d"]);
    assert!(move_item(&mut v, 3, 3).is_ok());
    assert_eq!(v, vec!["a", "b", "c", "d"]);
}

#[test]
fn move_item_rejects_bad_indexes() {
    let mut v = vec![1, 2, 3];
    assert_eq!(move_item(&mut v, 3, 0), Err("invalid reorder index".to_string()));
    assert_eq!(move_item(&mut v, 0, 3), Err("invalid reorder index".to_string()));
    assert_eq!(v, vec![1, 2, 3]);
    let mut empty: Vec<u8> = vec![];
    assert!(move_item(&mut empty, 0, 0).is_err());
}

#[test]
fn named_colors() {
    assert_eq!(display_color("white"), [245, 245, 245]);
    assert_eq!(display_color("BLACK"), [8, 8, 8]);
    assert_eq!(display_color("Red"), [220, 40, 40]);
    assert_eq!(display_color("blue"), [40, 70, 220]);
    assert_eq!(display_color("green"), [40, 180, 70]);
    assert_eq!(display_color(" white"), [128, 128, 128]);
    assert_eq!(display_color("purple"), [128, 128, 128]);
}

#[test]
fn hexadecimal_colors() {
    assert_eq!(display_color("#ff8000"), [255, 128, 0]);
    assert_eq!(display_color("#A0b1C2"), [160, 177, 194]);
    assert_eq!(display_color("#000000"), [0, 0, 0]);
    assert_eq!(display_color("#ff800"), [128, 128, 128]);
    assert_eq!(display_color("#ff80000"), [128, 128, 128]);
    assert_eq!(display_color("#gg0000"), [128, 128, 128]);
    assert_eq!(display_color("ff8000"), [128, 128, 128]);
    // A leading plus sign is read as by `u32::from_str_radix`.
    assert_eq!(display_color("#+12345"), [1, 35, 69]);
    assert_eq!(display_color("#+-1234"), [128, 128, 128]);
    assert_eq!(display_color("#ééé"), [128, 128, 128]);
}

#[test]
fn hexadecimal_colors_match_std_parsing() {
    for name in ["#123456", "#+abcde", "#ABCDEF", "#12345g", "#-12345", "#+", "#", "#1234567"] {
        let expected = match name.strip_prefix('#') {
            Some(hex) if hex.len() == 6 => match u32::from_str_radix(hex, 16) {
                Ok(n) => [(n >> 16) as u8, (n >> 8) as u8, n as u8],
                Err(_) => [128, 128, 128],
            },
            _ => [128, 128, 128],
        };
        assert_eq!(display_color(name), expected, "{name}");
    }
}

#[test]
fn enum_values_compare() {
    assert_ne!(MarkKind::Paint, MarkKind::Gap);
    assert_ne!(StartSource::Project, StartSource::Track);
}

fn item(id: &str) -> ItemCheck {
    ItemCheck { id: id.to_string(), fields_valid: true }
}

fn seg(id: &str, straight: bool) -> SegmentCheck {
    SegmentCheck { id: id.to_string(), is_straight: straight, shape_valid: true, start_finish_fits: true }
}

fn parametric() -> ParametricCheck {
    ParametricCheck {
        rules_source: "official".into(),
        rules_edition: "2024".into(),
        units: "mm".into(),
        area_origin_valid: true,
        rules_valid: true,
        width_closure_valid: true,
        segments: vec![seg("R1", true), seg("C1", false), seg("R2", true)],
        length_within_budget: true,
        start_finish_numbers_valid: true,
        start_finish_enabled: true,
        start_finish_segment: "R1".into(),
        reflectance_valid: true,
        friction_valid: true,
    }
}

fn definition() -> DefinitionCheck {
    DefinitionCheck {
        outside_surface_valid: true,
        outside_material: "outside".into(),
        outside_reflectance_at_most_one: true,
        laps: 1,
        regions: vec![item("reg")],
        marks: vec![item("mark")],
        gates: vec![item("start"), item("finish")],
        relief_enabled: false,
        regions_have_relief: false,
        parametric: Some(parametric()),
        polyline_geometry_valid: false,
        polyline_surface_valid: false,
    }
}

#[test]
fn valid_definition_has_no_warnings() {
    assert_eq!(validate_definition(&definition()), Ok(vec![]));
}

#[test]
fn warnings_for_relief_metadata_and_missing_profile() {
    let mut d = definition();
    d.regions_have_relief = true;
    if let Some(p) = d.parametric.as_mut() {
        p.rules_edition = "  ".into();
    }
    assert_eq!(
        validate_definition(&d),
        Ok(vec![
            "Height/roughness stored as metadata; vertical forces are disabled.".to_string(),
            "Rule profile has no source/edition; no official compliance claim.".to_string(),
        ])
    );
}

#[test]
fn ids_are_shared_between_regions_marks_and_gates() {
    let mut d = definition();
    d.gates[1].id = "reg".into();
    assert_eq!(validate_definition(&d), Err("invalid race gate reg".to_string()));
    let mut d = definition();
    d.marks[0].id = " ".into();
    assert_eq!(validate_definition(&d), Err("invalid optical mark  ".to_string()));
    let mut d = definition();
    d.regions[0].fields_valid = false;
    assert_eq!(validate_definition(&d), Err("invalid region reg".to_string()));
}

#[test]
fn outside_surface_and_laps_are_checked_first() {
    let mut d = definition();
    d.laps = 0;
    d.gates[0].id = "reg".into();
    assert_eq!(validate_definition(&d), Err("invalid outside material/reflectance/laps".to_string()));
    d.outside_surface_valid = false;
    assert_eq!(validate_definition(&d), Err("invalid outside surface".to_string()));
}

#[test]
fn relief_is_refused() {
    let mut d = definition();
    d.relief_enabled = true;
    assert_eq!(
        validate_definition(&d),
        Err("vertical relief is not supported by planar-impulse-v2; disable relief to preserve it as metadata".to_string())
    );
}

#[test]
fn segment_checks() {
    let mut d = definition();
    d.parametric.as_mut().unwrap().segments.push(seg("C1", false));
    assert_eq!(validate_definition(&d), Err("duplicate/empty segment ID".to_string()));
    let mut d = definition();
    d.parametric.as_mut().unwrap().segments[1].shape_valid = false;
    assert_eq!(
        validate_definition(&d),
        Err("arc needs positive radius and nonzero sweep <= 360 degrees".to_string())
    );
    let mut d = definition();
    d.parametric.as_mut().unwrap().segments[2].shape_valid = false;
    assert_eq!(validate_definition(&d), Err("invalid straight length".to_string()));
    let mut d = definition();
    d.parametric.as_mut().unwrap().segments.clear();
    assert_eq!(validate_definition(&d), Err("track needs segments".to_string()));
    let mut d = definition();
    d.parametric.as_mut().unwrap().units = "cm".into();
    assert_eq!(validate_definition(&d), Err("invalid parametric area/origin/units".to_string()));
}

#[test]
fn start_finish_must_reference_a_straight() {
    let mut d = definition();
    d.parametric.as_mut().unwrap().start_finish_segment = "C1".into();
    assert_eq!(validate_definition(&d), Err("invalid start/finish segment reference".to_string()));
    let mut d = definition();
    d.parametric.as_mut().unwrap().segments[0].start_finish_fits = false;
    assert_eq!(
        validate_definition(&d),
        Err("start/finish must lie on the referenced straight".to_string())
    );
    let mut d = definition();
    d.parametric.as_mut().unwrap().start_finish_enabled = false;
    d.parametric.as_mut().unwrap().start_finish_segment = "nowhere".into();
    assert_eq!(validate_definition(&d), Ok(vec![]));
}

#[test]
fn polyline_tracks() {
    let mut d = definition();
    d.parametric = None;
    assert_eq!(validate_definition(&d), Err("invalid polyline geometry".to_string()));
    d.polyline_geometry_valid = true;
    assert_eq!(validate_definition(&d), Err("invalid polyline surface".to_string()));
    d.polyline_surface_valid = true;
    assert_eq!(validate_definition(&d), Ok(vec![]));
}

use robotrace_sim::definition::effective_start_pose;

#[test]
fn start_pose_source() {
    assert_eq!(effective_start_pose(StartSource::Project, Some(Some((1, 2))), (0, 0)), Ok((0, 0)));
    assert_eq!(effective_start_pose(StartSource::Track, None, (0, 0)), Ok((0, 0)));
    assert_eq!(effective_start_pose(StartSource::Track, Some(Some((1, 2))), (0, 0)), Ok((1, 2)));
    assert_eq!(
        effective_start_pose::<(i32, i32)>(StartSource::Track, Some(None), (0, 0)),
        Err("Track start selected but no valid start marking exists; choose Project source".to_string())
    );
}
