use robotrace_sim::track_rules::{
    next_segment_id, push_issue, rule_severity, MarkerSide, Severity, StartExitDirection,
    TrackCornerMarkersConfig, TrackRulesMode, TrackValidationIssue,
};

#[test]
fn rules_mode_names_round_trip() {
    for m in [TrackRulesMode::Strict, TrackRulesMode::Warning, TrackRulesMode::Free] {
        assert_eq!(TrackRulesMode::from_str(m.as_str()), m);
    }
    assert_eq!(TrackRulesMode::Strict.as_str(), "strict");
    assert_eq!(TrackRulesMode::Warning.as_str(), "warning");
    assert_eq!(TrackRulesMode::Free.as_str(), "free");
}

#[test]
fn rules_mode_reading_is_lenient() {
    assert_eq!(TrackRulesMode::from_str("  STRICT\n"), TrackRulesMode::Strict);
    assert_eq!(TrackRulesMode::from_str("Free"), TrackRulesMode::Free);
    assert_eq!(TrackRulesMode::from_str("whatever"), TrackRulesMode::Warning);
    assert_eq!(TrackRulesMode::from_str(""), TrackRulesMode::Warning);
    assert_eq!(TrackRulesMode::from_str("\u{3000}strict\u{a0}"), TrackRulesMode::Strict);
    assert_eq!(TrackRulesMode::from_str("st rict"), TrackRulesMode::Warning);
}

#[test]
fn exit_direction_names() {
    for d in [StartExitDirection::ToIncreasingS, StartExitDirection::ToDecreasingS] {
        assert_eq!(StartExitDirection::from_str(d.as_str()), d);
    }
    for name in ["to_decreasing_s", "decreasing", "Decreasing_S", " LEFT ", "esquerda"] {
        assert_eq!(StartExitDirection::from_str(name), StartExitDirection::ToDecreasingS);
    }
    for name in ["right", "direita", "", "to_increasing_s"] {
        assert_eq!(StartExitDirection::from_str(name), StartExitDirection::ToIncreasingS);
    }
    assert!(StartExitDirection::ToIncreasingS.is_increasing_s());
    assert!(!StartExitDirection::ToDecreasingS.is_increasing_s());
    assert_eq!(StartExitDirection::ToIncreasingS.ui_label(), "sair para a direita (+s)");
    assert_eq!(StartExitDirection::ToDecreasingS.ui_label(), "sair para a esquerda (-s)");
}

#[test]
fn marker_side_names() {
    for m in [MarkerSide::Left, MarkerSide::Right, MarkerSide::Center] {
        assert_eq!(MarkerSide::from_str(m.as_str()), m);
    }
    assert_eq!(MarkerSide::from_str("Esquerda"), MarkerSide::Left);
    assert_eq!(MarkerSide::from_str("centre"), MarkerSide::Center);
    assert_eq!(MarkerSide::from_str(" CENTRO "), MarkerSide::Center);
    assert_eq!(MarkerSide::from_str("middle"), MarkerSide::Right);
}

#[test]
fn severity_follows_the_mode() {
    assert_eq!(rule_severity(TrackRulesMode::Strict), Severity::Error);
    assert_eq!(rule_severity(TrackRulesMode::Warning), Severity::Warning);
    assert_eq!(rule_severity(TrackRulesMode::Free), Severity::Info);
}

#[test]
fn push_issue_appends_a_finding() {
    let mut issues: Vec<TrackValidationIssue> = Vec::new();
    push_issue(&mut issues, Severity::Error, "closure.required", None, "open track");
    push_issue(&mut issues, Severity::Info, "arc.radius", Some("C1"), "tight arc");
    assert_eq!(issues.len(), 2);
    assert_eq!(issues[0].rule_id, "closure.required");
    assert_eq!(issues[0].segment_id, None);
    assert_eq!(issues[0].message, "open track");
    assert_eq!(issues[1].severity, Severity::Info);
    assert_eq!(issues[1].segment_id.as_deref(), Some("C1"));
    let cfg = TrackCornerMarkersConfig { auto_generate: true };
    assert!(cfg.auto_generate);
}

#[test]
fn next_segment_id_takes_the_smallest_free_number() {
    let ids: Vec<String> = vec!["R1".into(), "C1".into(), "R2".into(), "R4".into()];
    assert_eq!(next_segment_id(&ids, "R"), "R3");
    assert_eq!(next_segment_id(&ids, "C"), "C2");
    assert_eq!(next_segment_id(&ids, "X"), "X1");
    assert_eq!(next_segment_id(&vec![], "S"), "S1");
}

#[test]
fn next_segment_id_counts_past_nine() {
    let ids: Vec<String> = (1..=12).map(|i| format!("R{i}")).collect();
    assert_eq!(next_segment_id(&ids, "R"), "R13");
}
