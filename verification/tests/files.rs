use robotrace_sim::files::{json_file_name_from_name, sanitize_asset_filename, TrackPanelChanges};

#[test]
fn json_names_from_user_names() {
    assert_eq!(json_file_name_from_name("Minha pista", "track"), "Minha pista.json");
    assert_eq!(json_file_name_from_name("  pista: v2?  ", "track"), "pista_ v2_.json");
    assert_eq!(json_file_name_from_name("a/b\\c", "track"), "a_b_c.json");
    assert_eq!(json_file_name_from_name(" . . ", "track"), "track.json");
    assert_eq!(json_file_name_from_name("", "robot"), "robot.json");
    assert_eq!(json_file_name_from_name("robot.JSON", "x"), "robot.JSON");
    assert_eq!(json_file_name_from_name("robot.json.", "x"), "robot.json");
    assert_eq!(json_file_name_from_name("tab\there", "x"), "tab_here.json");
    assert_eq!(json_file_name_from_name(".hidden", "x"), "hidden.json");
    assert_eq!(json_file_name_from_name("", "fb.json"), "fb.json");
}

#[test]
fn asset_file_names() {
    assert_eq!(sanitize_asset_filename("Pista Oficial 2024"), "pista_oficial_2024");
    assert_eq!(sanitize_asset_filename("  --Lisa--  "), "lisa");
    assert_eq!(sanitize_asset_filename("a.b_c-d e"), "a_b_c_d_e");
    assert_eq!(sanitize_asset_filename("ação"), "ao");
    assert_eq!(sanitize_asset_filename("***"), "surface_profile");
    assert_eq!(sanitize_asset_filename(""), "surface_profile");
    assert_eq!(sanitize_asset_filename("a   b"), "a_b");
}

#[test]
fn panel_changes() {
    assert!(!TrackPanelChanges::default().any());
    assert!(TrackPanelChanges { track_changed: true, surface_changed: false }.any());
    assert!(TrackPanelChanges { track_changed: false, surface_changed: true }.any());
}
