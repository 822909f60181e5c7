use robotrace_sim::history::{RobotHistory, TrackEditHistory, HISTORY_LIMIT};

#[test]
fn undo_then_redo_restores_the_definition() {
    let mut h: RobotHistory<String> = RobotHistory::new();
    let mut robot = "v2".to_string();
    h.record("v1".to_string(), "{\"v\":1}", "{\"v\":2}");
    assert!(h.undo(&mut robot));
    assert_eq!(robot, "v1");
    assert!(h.redo(&mut robot));
    assert_eq!(robot, "v2");
    assert!(!h.redo(&mut robot));
    assert_eq!(robot, "v2");
}

#[test]
fn unchanged_edit_is_not_recorded() {
    let mut h: RobotHistory<u32> = RobotHistory::new();
    let mut robot = 7;
    h.record(7, "{}", "{}");
    assert!(!h.undo(&mut robot));
    assert_eq!(robot, 7);
}

#[test]
fn recording_clears_redo() {
    let mut h: RobotHistory<u32> = RobotHistory::default();
    let mut robot = 2;
    h.record(1, "a", "b");
    assert!(h.undo(&mut robot));
    assert_eq!(robot, 1);
    h.record(1, "a", "c");
    assert!(!h.redo(&mut robot));
}

#[test]
fn history_keeps_the_newest_hundred_snapshots() {
    assert_eq!(HISTORY_LIMIT, 100);
    let mut h: RobotHistory<u32> = RobotHistory::new();
    for i in 0..150u32 {
        h.record(i, "x", "y");
    }
    let mut robot = 150;
    let mut undone = 0;
    while h.undo(&mut robot) {
        undone += 1;
    }
    assert_eq!(undone, 100);
    // The oldest fifty were dropped.
    assert_eq!(robot, 50);
}

#[test]
fn clear_forgets_everything() {
    let mut h: RobotHistory<u32> = RobotHistory::new();
    let mut robot = 3;
    h.record(1, "a", "b");
    h.record(2, "b", "c");
    h.clear();
    assert!(!h.undo(&mut robot));
    assert!(!h.redo(&mut robot));
}

#[test]
fn track_history_restores_track_and_pose_together() {
    let mut h: TrackEditHistory<String, (i32, i32)> = TrackEditHistory::new();
    let mut track = "T2".to_string();
    let mut pose = (5, 5);
    h.record(("T1".to_string(), (0, 0)), "{\"t\":1}", "{\"t\":2}", true);
    assert!(h.undo(&mut track, &mut pose));
    assert_eq!(track, "T1");
    assert_eq!(pose, (0, 0));
    assert!(h.redo(&mut track, &mut pose));
    assert_eq!(track, "T2");
    assert_eq!(pose, (5, 5));
}

#[test]
fn track_history_records_a_pose_change_alone() {
    let mut h: TrackEditHistory<u8, u8> = TrackEditHistory::default();
    let mut track = 1;
    let mut pose = 9;
    h.record((1, 8), "same", "same", false);
    assert!(!h.undo(&mut track, &mut pose));
    h.record((1, 8), "same", "same", true);
    assert!(h.undo(&mut track, &mut pose));
    assert_eq!((track, pose), (1, 8));
    h.clear();
    assert!(!h.redo(&mut track, &mut pose));
}
