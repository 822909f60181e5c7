use robotrace_sim::sensing::{validate_optical, OpticalTiming, SensorPresence};
use robotrace_sim::sim::TimeConfig;

fn time() -> TimeConfig {
    TimeConfig {
        physics_dt_us: 100,
        controller_period_us: 1000,
        sensor_period_us: 1000,
        encoder_period_us: 1000,
        imu_period_us: 1000,
        log_period_us: 1000,
        render_period_us: 1000,
    }
}

fn timing(id: &str) -> OpticalTiming {
    OpticalTiming {
        id: id.into(),
        period_us: 0,
        phase_us: 0,
        mux_group: 0,
        conversion_us: 0,
        latency_us: 0,
        area_samples: 9,
        response_valid: true,
    }
}

fn sensors() -> Vec<SensorPresence> {
    vec![
        SensorPresence { id: "s0".into(), enabled: true },
        SensorPresence { id: "s1".into(), enabled: true },
        SensorPresence { id: "s2".into(), enabled: false },
    ]
}

#[test]
fn defaults_are_accepted() {
    assert_eq!(validate_optical(&vec![timing("s0"), timing("s1")], &sensors(), time()), Ok(()));
    assert_eq!(validate_optical(&vec![], &sensors(), time()), Ok(()));
}

#[test]
fn settings_must_name_a_mounted_sensor() {
    assert_eq!(
        validate_optical(&vec![timing("s0"), timing("t9")], &sensors(), time()),
        Err("unknown optical ID t9".to_string())
    );
}

#[test]
fn timing_must_sit_on_the_grid_and_fit_the_period() {
    let mut a = timing("s0");
    a.phase_us = 150;
    assert_eq!(
        validate_optical(&vec![a], &sensors(), time()),
        Err("invalid optical timing/response for s0".to_string())
    );
    let mut a = timing("s0");
    a.phase_us = 1000;
    assert!(validate_optical(&vec![a], &sensors(), time()).is_err());
    let mut a = timing("s0");
    a.conversion_us = 1100;
    assert!(validate_optical(&vec![a], &sensors(), time()).is_err());
    let mut a = timing("s0");
    a.latency_us = 10_000_100 * 1000;
    assert!(validate_optical(&vec![a], &sensors(), time()).is_err());
    let mut a = timing("s0");
    a.latency_us = 10_000 * 1000;
    assert!(validate_optical(&vec![a], &sensors(), time()).is_ok());
    let mut a = timing("s0");
    a.area_samples = 0;
    assert!(validate_optical(&vec![a], &sensors(), time()).is_err());
    let mut a = timing("s0");
    a.area_samples = 65;
    assert!(validate_optical(&vec![a], &sensors(), time()).is_err());
    let mut a = timing("s0");
    a.response_valid = false;
    assert!(validate_optical(&vec![a], &sensors(), time()).is_err());
    let mut a = timing("s0");
    a.period_us = 2000;
    a.phase_us = 1500;
    assert!(validate_optical(&vec![a], &sensors(), time()).is_ok());
}

#[test]
fn multiplexed_conversions_must_fit_their_slot() {
    let mut a = timing("s0");
    a.mux_group = 1;
    assert_eq!(
        validate_optical(&vec![a], &sensors(), time()),
        Err("multiplexer s0: conversion must fit its slot".to_string())
    );
    let mut a = timing("s0");
    a.mux_group = 1;
    a.phase_us = 900;
    a.conversion_us = 200;
    assert!(validate_optical(&vec![a], &sensors(), time()).is_err());
}

#[test]
fn multiplexed_slots_must_not_overlap() {
    let mut a = timing("s0");
    a.mux_group = 1;
    a.conversion_us = 300;
    let mut b = timing("s1");
    b.mux_group = 1;
    b.phase_us = 200;
    b.conversion_us = 300;
    assert_eq!(
        validate_optical(&vec![a.clone(), b.clone()], &sensors(), time()),
        Err("multiplexer slots overlap or periods differ: s0, s1".to_string())
    );
    b.phase_us = 300;
    assert_eq!(validate_optical(&vec![a.clone(), b.clone()], &sensors(), time()), Ok(()));
    b.mux_group = 2;
    b.phase_us = 0;
    assert_eq!(validate_optical(&vec![a.clone(), b.clone()], &sensors(), time()), Ok(()));
}

#[test]
fn multiplexed_periods_must_match() {
    let mut a = timing("s0");
    a.mux_group = 3;
    a.conversion_us = 100;
    let mut b = timing("s1");
    b.mux_group = 3;
    b.period_us = 2000;
    b.phase_us = 500;
    b.conversion_us = 100;
    assert_eq!(
        validate_optical(&vec![a, b], &sensors(), time()),
        Err("multiplexer slots overlap or periods differ: s0, s1".to_string())
    );
}

#[test]
fn disabled_sensors_do_not_take_part_in_multiplexing() {
    let mut a = timing("s0");
    a.mux_group = 1;
    a.conversion_us = 300;
    let mut c = timing("s2");
    c.mux_group = 1;
    c.conversion_us = 300;
    assert_eq!(validate_optical(&vec![a, c], &sensors(), time()), Ok(()));
}

use robotrace_sim::sensing::{validate_sensing, ControlCheck, EncoderCheck, ImuCheck, SensingCheck};

fn sensing() -> SensingCheck {
    SensingCheck {
        replay: None,
        has_powertrain: false,
        optical: vec![timing("s0")],
        sensors: sensors(),
        encoder: EncoderCheck { quadrature: 1, latency_us: 0, ticks_per_rev: 360, ratio_valid: true, response_valid: true },
        imu: ImuCheck { latency_us: 0, values_valid: true },
        control: ControlCheck { speed_mode: 0, profile_enabled: 0, mark_min_channels: 2, values_valid: true },
        all_finite: true,
    }
}

#[test]
fn default_sensing_is_accepted() {
    assert_eq!(validate_sensing(&sensing(), time()), Ok(()));
}

#[test]
fn replay_outcomes() {
    let mut s = sensing();
    s.replay = Some(Err("replay.csv: bad header".into()));
    assert_eq!(validate_sensing(&s, time()), Err("replay.csv: bad header".to_string()));
    s.replay = Some(Ok(true));
    assert_eq!(validate_sensing(&s, time()), Err("brake/coast replay requires coupled powertrain".to_string()));
    s.has_powertrain = true;
    assert_eq!(validate_sensing(&s, time()), Ok(()));
    s.has_powertrain = false;
    s.replay = Some(Ok(false));
    assert_eq!(validate_sensing(&s, time()), Ok(()));
}

#[test]
fn encoder_settings() {
    let mut s = sensing();
    s.encoder.quadrature = 3;
    assert_eq!(validate_sensing(&s, time()), Err("invalid encoder settings".to_string()));
    let mut s = sensing();
    s.encoder.quadrature = 4;
    s.encoder.ticks_per_rev = u32::MAX / 2;
    assert_eq!(validate_sensing(&s, time()), Err("invalid encoder settings".to_string()));
    let mut s = sensing();
    s.encoder.latency_us = 150;
    assert_eq!(validate_sensing(&s, time()), Err("invalid encoder settings".to_string()));
    let mut s = sensing();
    s.encoder.latency_us = 10_001 * 1000;
    assert_eq!(validate_sensing(&s, time()), Err("invalid encoder settings".to_string()));
    let mut s = sensing();
    s.encoder.quadrature = 2;
    s.encoder.latency_us = 10_000 * 1000;
    assert_eq!(validate_sensing(&s, time()), Ok(()));
}

#[test]
fn imu_and_control_settings() {
    let mut s = sensing();
    s.imu.values_valid = false;
    assert_eq!(validate_sensing(&s, time()), Err("invalid IMU settings".to_string()));
    let mut s = sensing();
    s.control.profile_enabled = 1;
    assert_eq!(validate_sensing(&s, time()), Err("invalid control settings".to_string()));
    s.control.speed_mode = 1;
    assert_eq!(validate_sensing(&s, time()), Ok(()));
    let mut s = sensing();
    s.control.mark_min_channels = 0;
    assert_eq!(validate_sensing(&s, time()), Err("invalid control settings".to_string()));
    let mut s = sensing();
    s.control.speed_mode = 2;
    assert_eq!(validate_sensing(&s, time()), Err("invalid control settings".to_string()));
    let mut s = sensing();
    s.all_finite = false;
    assert_eq!(validate_sensing(&s, time()), Err("non-finite sensing setting".to_string()));
}

#[test]
fn optical_errors_come_before_encoder_errors() {
    let mut s = sensing();
    s.optical.push(timing("t9"));
    s.encoder.quadrature = 3;
    assert_eq!(validate_sensing(&s, time()), Err("unknown optical ID t9".to_string()));
}

#[test]
fn errors_found_before_a_zero_period_is_used_are_reported() {
    let mut zero = time();
    zero.physics_dt_us = 0;
    assert_eq!(
        validate_optical(&vec![timing("a0"), timing("s0")], &sensors(), zero),
        Err("unknown optical ID a0".to_string())
    );
    assert_eq!(validate_optical(&vec![], &sensors(), zero), Ok(()));
    let mut s = sensing();
    s.optical = vec![];
    s.encoder.quadrature = 3;
    assert_eq!(validate_sensing(&s, zero), Err("invalid encoder settings".to_string()));
    let mut periods = time();
    periods.encoder_period_us = 0;
    periods.imu_period_us = 0;
    let mut s = sensing();
    s.encoder.latency_us = 150;
    assert_eq!(validate_sensing(&s, periods), Err("invalid encoder settings".to_string()));
    let mut s = sensing();
    s.encoder.ratio_valid = false;
    assert_eq!(validate_sensing(&s, periods), Err("invalid encoder settings".to_string()));
}
