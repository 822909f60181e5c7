use robotrace_sim::race::{GateCrossing, GateKind, RaceEventKind, RaceGate, RaceState};

fn gate(id: &str, kind: GateKind) -> RaceGate {
    RaceGate { id: id.to_string(), kind }
}

fn track_gates() -> Vec<RaceGate> {
    vec![
        gate("S", GateKind::Start),
        gate("C1", GateKind::Checkpoint),
        gate("C2", GateKind::Checkpoint),
        gate("F", GateKind::Finish),
    ]
}

fn fwd(gate: usize) -> GateCrossing {
    GateCrossing { gate, forward: true }
}

fn kinds(r: &RaceState) -> Vec<RaceEventKind> {
    r.events().iter().map(|e| e.kind).collect()
}

#[test]
fn starting_outside_records_an_exit_at_time_zero() {
    let r = RaceState::new(track_gates(), true, false, 1, false);
    assert_eq!(r.events().len(), 1);
    assert_eq!(r.events()[0].kind, RaceEventKind::ExitedArea);
    assert_eq!(r.events()[0].t_us, 0);
    assert_eq!(r.events()[0].gate_id, None);
    let inside = RaceState::new(track_gates(), true, false, 1, true);
    assert!(inside.events().is_empty());
}

#[test]
fn clean_lap_counts_one_lap() {
    let mut r = RaceState::new(track_gates(), true, false, 2, true);
    r.update(true, 100, &vec![fwd(0), fwd(1), fwd(2), fwd(3)]);
    assert_eq!(r.laps(), 1);
    assert!(r.started());
    assert_eq!(
        kinds(&r),
        vec![
            RaceEventKind::Started,
            RaceEventKind::Checkpoint,
            RaceEventKind::Checkpoint,
            RaceEventKind::Lap
        ]
    );
    let lap = r.events().last().unwrap();
    assert_eq!(lap.lap, 1);
    assert_eq!(lap.gate_id.as_deref(), Some("F"));
    assert_eq!(lap.t_us, 100);
    assert_eq!(r.termination(), None);
}

#[test]
fn reaching_the_target_finishes_the_race() {
    let mut r = RaceState::new(track_gates(), true, false, 2, true);
    r.update(true, 100, &vec![fwd(0), fwd(1), fwd(2), fwd(3)]);
    r.update(true, 200, &vec![fwd(0), fwd(1), fwd(2), fwd(3), fwd(0)]);
    assert_eq!(r.laps(), 2);
    let k = kinds(&r);
    assert_eq!(k[k.len() - 2], RaceEventKind::Lap);
    assert_eq!(k[k.len() - 1], RaceEventKind::Finished);
    // The start crossing after the finishing one is not processed.
    assert_eq!(k.len(), 9);
    assert_eq!(r.termination(), Some("race_finished"));
}

#[test]
fn finished_race_ignores_further_gates() {
    let mut r = RaceState::new(vec![gate("S", GateKind::Start), gate("F", GateKind::Finish)], true, false, 1, true);
    r.update(true, 10, &vec![fwd(0), fwd(1)]);
    assert_eq!(r.termination(), Some("race_finished"));
    let before = r.events().len();
    r.update(true, 20, &vec![fwd(0), fwd(1), GateCrossing { gate: 1, forward: false }]);
    assert_eq!(r.events().len(), before);
    assert_eq!(r.laps(), 1);
}

#[test]
fn checkpoint_out_of_order_spoils_the_lap() {
    let mut r = RaceState::new(track_gates(), true, false, 3, true);
    r.update(true, 5, &vec![fwd(0), fwd(2), fwd(1), fwd(3)]);
    assert_eq!(r.laps(), 0);
    assert_eq!(
        kinds(&r),
        vec![
            RaceEventKind::Started,
            RaceEventKind::WrongSequence,
            RaceEventKind::Checkpoint,
            RaceEventKind::WrongSequence
        ]
    );
    // The finish disarmed the lap: a new start is needed.
    r.update(true, 6, &vec![fwd(1), fwd(3)]);
    assert_eq!(r.events().len(), 4);
    r.update(true, 7, &vec![fwd(0), fwd(1), fwd(2), fwd(3)]);
    assert_eq!(r.laps(), 1);
}

#[test]
fn reverse_crossing_is_recorded_and_changes_nothing_else() {
    let mut r = RaceState::new(track_gates(), true, false, 1, true);
    r.update(true, 3, &vec![GateCrossing { gate: 0, forward: false }]);
    assert_eq!(kinds(&r), vec![RaceEventKind::ReverseCrossing]);
    assert!(!r.started());
    assert_eq!(r.events()[0].gate_id.as_deref(), Some("S"));
}

#[test]
fn start_gate_is_ignored_while_a_lap_is_armed() {
    let mut r = RaceState::new(track_gates(), true, false, 1, true);
    r.update(true, 1, &vec![fwd(0), fwd(1), fwd(0)]);
    assert_eq!(
        kinds(&r),
        vec![RaceEventKind::Started, RaceEventKind::Checkpoint]
    );
}

#[test]
fn leaving_the_area_stops_the_run_when_configured() {
    let mut r = RaceState::new(track_gates(), true, true, 1, true);
    r.update(false, 42, &vec![]);
    assert_eq!(kinds(&r), vec![RaceEventKind::ExitedArea]);
    assert_eq!(r.events()[0].t_us, 42);
    assert_eq!(r.termination(), Some("area_exit"));
    r.update(true, 43, &vec![]);
    assert_eq!(kinds(&r), vec![RaceEventKind::ExitedArea, RaceEventKind::EnteredArea]);
    // Having left once is enough.
    assert_eq!(r.termination(), Some("area_exit"));
}

#[test]
fn leaving_the_area_without_stop_setting_does_not_terminate() {
    let mut r = RaceState::new(track_gates(), true, false, 1, true);
    r.update(false, 42, &vec![]);
    assert_eq!(r.termination(), None);
}

#[test]
fn disabled_race_ignores_gates_but_records_area_changes() {
    let mut r = RaceState::new(track_gates(), false, false, 1, true);
    r.update(false, 9, &vec![fwd(0), fwd(1), fwd(2), fwd(3)]);
    assert_eq!(kinds(&r), vec![RaceEventKind::ExitedArea]);
    assert_eq!(r.laps(), 0);
    assert!(!r.started());
}

#[test]
fn zero_target_finishes_after_the_first_lap() {
    let mut r = RaceState::new(vec![gate("S", GateKind::Start), gate("F", GateKind::Finish)], true, false, 0, true);
    r.update(true, 1, &vec![fwd(0), fwd(1)]);
    assert_eq!(r.laps(), 1);
    assert_eq!(r.termination(), Some("race_finished"));
}

#[test]
fn lap_without_checkpoints() {
    let mut r = RaceState::new(vec![gate("S", GateKind::Start), gate("F", GateKind::Finish)], true, false, 5, true);
    for t in 0..3u64 {
        r.update(true, t, &vec![fwd(0), fwd(1)]);
    }
    assert_eq!(r.laps(), 3);
    assert_eq!(r.termination(), None);
}

#[test]
fn one_lap_race_over_three_movements() {
    let gates = vec![gate("S", GateKind::Start), gate("C", GateKind::Checkpoint), gate("F", GateKind::Finish)];
    let mut r = RaceState::new(gates.clone(), true, false, 1, true);
    r.update(true, 10, &vec![fwd(0)]);
    r.update(true, 20, &vec![fwd(1)]);
    r.update(true, 30, &vec![fwd(2)]);
    let seen: Vec<(u64, RaceEventKind, Option<String>, u32)> =
        r.events().iter().map(|e| (e.t_us, e.kind, e.gate_id.clone(), e.lap)).collect();
    assert_eq!(
        seen,
        vec![
            (10, RaceEventKind::Started, Some("S".to_string()), 0),
            (20, RaceEventKind::Checkpoint, Some("C".to_string()), 0),
            (30, RaceEventKind::Lap, Some("F".to_string()), 1),
            (30, RaceEventKind::Finished, Some("F".to_string()), 1),
        ]
    );
    assert_eq!(r.laps(), 1);
    assert_eq!(r.termination(), Some("race_finished"));
    let copy = r.clone();
    assert_eq!(copy.events(), r.events());
    assert_eq!(copy.laps(), 1);

    let mut skipped = RaceState::new(gates, true, false, 1, true);
    skipped.update(true, 10, &vec![fwd(0)]);
    skipped.update(true, 20, &vec![fwd(2)]);
    assert_eq!(kinds(&skipped), vec![RaceEventKind::Started, RaceEventKind::WrongSequence]);
    assert_eq!(skipped.laps(), 0);
    assert_eq!(skipped.termination(), None);
}
