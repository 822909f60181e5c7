use robotrace_sim::sim::{
    validate_track_for_simulation, EffectiveRunConfig, EventCounts, RunChoices, TimeConfig,
    DEFAULT_GYRO_SEED,
};
use robotrace_sim::track_rules::{Severity, TrackRulesMode, TrackValidationIssue};

fn time() -> TimeConfig {
    TimeConfig {
        physics_dt_us: 500,
        controller_period_us: 1000,
        sensor_period_us: 1000,
        encoder_period_us: 2000,
        imu_period_us: 1000,
        log_period_us: 10000,
        render_period_us: 16000,
    }
}

fn config(override_us: Option<u64>) -> EffectiveRunConfig {
    EffectiveRunConfig {
        run_id: "18c-42-0".into(),
        sensing_model: "stage8".into(),
        controller_model: "pid".into(),
        power_model: "ideal".into(),
        physics_model: "planar-impulse-v2".into(),
        time: time(),
        duration_us: 10_000_000,
        line_sensor_seed: 7,
        gyro_seed: 2467,
        physics_dt_override_us: override_us,
    }
}

fn expected(c: &EffectiveRunConfig) -> String {
    let o = c.physics_dt_override_us.map(|v| v.to_string()).unwrap_or_else(|| "null".into());
    let t = &c.time;
    let mut s = String::new();
    s += "{\n  \"schema\": \"rtsim-run-time-v1\",\n";
    s += "  \"engine_version\": \"0.6.0\",\n";
    s += &format!("  \"run_id\": \"{}\",\n", c.run_id);
    s += &format!("  \"physics_model\": \"{}\",\n", c.physics_model);
    s += &format!("  \"power_model\": \"{}\",\n", c.power_model);
    s += &format!("  \"sensing_model\": \"{}\",\n", c.sensing_model);
    s += &format!("  \"controller_model\": \"{}\",\n", c.controller_model);
    s += &format!("  \"duration_us\": {},\n", c.duration_us);
    s += &format!("  \"physics_dt_override_us\": {},\n", o);
    s += "  \"time\": {\n";
    s += &format!("    \"physics_dt_us\": {},\n    \"controller_period_us\": {},\n", t.physics_dt_us, t.controller_period_us);
    s += &format!("    \"sensor_period_us\": {},\n    \"encoder_period_us\": {},\n", t.sensor_period_us, t.encoder_period_us);
    s += &format!("    \"imu_period_us\": {},\n    \"log_period_us\": {},\n", t.imu_period_us, t.log_period_us);
    s += &format!("    \"render_period_us\": {}\n  }},\n", t.render_period_us);
    s += &format!("  \"line_sensor_seed\": {},\n  \"gyro_seed\": {},\n", c.line_sensor_seed, c.gyro_seed);
    s += "  \"sample_phase\": \"state_at_t_after_zero_latency_acquisition_and_control\",\n";
    s += "  \"physics_outputs_phase\": \"previous_interval; at t=0 initialized normal and battery, other outputs zero\",\n";
    s += "  \"duration_policy\": \"reject_off_grid\",\n";
    s += "  \"terminal_sample\": true\n}\n";
    s
}

#[test]
fn run_metadata_text() {
    let c = config(None);
    assert_eq!(c.to_json(), expected(&c));
    assert!(c.to_json().contains("\"physics_dt_override_us\": null,"));
    let c = config(Some(250));
    assert_eq!(c.to_json(), expected(&c));
    assert!(c.to_json().contains("\"physics_dt_override_us\": 250,"));
    assert!(c.to_json().contains("\"duration_us\": 10000000,"));
}

#[test]
fn run_metadata_extreme_numbers() {
    let mut c = config(Some(0));
    c.duration_us = u64::MAX;
    c.gyro_seed = 0;
    assert_eq!(c.to_json(), expected(&c));
    assert!(c.to_json().contains("\"duration_us\": 18446744073709551615,"));
}

fn issue(sev: Severity, msg: &str) -> TrackValidationIssue {
    TrackValidationIssue { severity: sev, rule_id: "r".into(), segment_id: None, message: msg.into() }
}

#[test]
fn only_strict_mode_blocks_a_run() {
    let issues = vec![issue(Severity::Error, "open track")];
    assert!(validate_track_for_simulation(None, &issues).is_ok());
    assert!(validate_track_for_simulation(Some(TrackRulesMode::Warning), &issues).is_ok());
    assert!(validate_track_for_simulation(Some(TrackRulesMode::Free), &issues).is_ok());
    assert_eq!(
        validate_track_for_simulation(Some(TrackRulesMode::Strict), &issues),
        Err("track validation blocked simulation in strict mode: open track".to_string())
    );
}

#[test]
fn strict_mode_quotes_at_most_three_errors() {
    let issues = vec![
        issue(Severity::Warning, "w"),
        issue(Severity::Error, "e1"),
        issue(Severity::Info, "i"),
        issue(Severity::Error, "e2"),
        issue(Severity::Error, "e3"),
        issue(Severity::Error, "e4"),
    ];
    assert_eq!(
        validate_track_for_simulation(Some(TrackRulesMode::Strict), &issues),
        Err("track validation blocked simulation in strict mode: e1; e2; e3".to_string())
    );
    let warnings_only = vec![issue(Severity::Warning, "w"), issue(Severity::Info, "i")];
    assert!(validate_track_for_simulation(Some(TrackRulesMode::Strict), &warnings_only).is_ok());
    assert!(validate_track_for_simulation(Some(TrackRulesMode::Strict), &vec![]).is_ok());
}

#[test]
fn event_counts_compare() {
    let a = EventCounts { sensor: 1, encoder: 2, imu: 3, controller: 4 };
    assert_eq!(a, EventCounts { sensor: 1, encoder: 2, imu: 3, controller: 4 });
}

#[test]
fn run_models_follow_the_robot() {
    let plain = RunChoices {
        has_replay: false,
        has_powertrain: false,
        contact_model: None,
        first_sensor_seed: None,
        gyro_seed: 0,
    };
    let c = EffectiveRunConfig::for_run("r1".to_string(), &plain, time(), 2_000_000, None);
    assert_eq!(c.sensing_model, "individual-area-timed-v1");
    assert_eq!(c.controller_model, "observable-pid-v1");
    assert_eq!(c.power_model, "staggered-simple-v1");
    assert_eq!(c.physics_model, "planar-impulse-v2");
    assert_eq!(c.line_sensor_seed, 0);
    assert_eq!(c.gyro_seed, 0x9E37_79B9_7F4A_7C15);
    assert_eq!(DEFAULT_GYRO_SEED, 0x9E37_79B9_7F4A_7C15);
    assert_eq!(c.duration_us, 2_000_000);
    assert_eq!(c.run_id, "r1");
    let full = RunChoices {
        has_replay: true,
        has_powertrain: true,
        contact_model: Some("brush".to_string()),
        first_sensor_seed: Some(42),
        gyro_seed: 7,
    };
    let c = EffectiveRunConfig::for_run("r2".to_string(), &full, time(), 10, Some(250));
    assert_eq!(c.controller_model, "replay-v1");
    assert_eq!(c.power_model, "coupled-dc-v1");
    assert_eq!(c.physics_model, "per-wheel-v1/brush");
    assert_eq!(c.line_sensor_seed, 42);
    assert_eq!(c.gyro_seed, 7);
    assert_eq!(c.physics_dt_override_us, Some(250));
    assert_eq!(c.time, time());
}
