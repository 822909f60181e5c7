use robotrace_sim::run_loop::{boundary_logged, run_goes_on, run_termination};

#[test]
fn cancelled_boundaries_are_logged() {
    assert!(boundary_logged(true, false));
    assert!(boundary_logged(false, true));
    assert!(!boundary_logged(false, false));
}

#[test]
fn a_finished_run_logs_its_final_state_once_more() {
    assert!(run_goes_on(true, false, false));
    assert!(run_goes_on(false, false, true));
    assert!(!run_goes_on(false, true, true));
    assert!(!run_goes_on(false, false, false));
}

#[test]
fn cancellation_overrides_the_termination_reason() {
    assert_eq!(run_termination(true, "race_finished"), "cancelled");
    assert_eq!(run_termination(false, "race_finished"), "race_finished");
    assert_eq!(run_termination(false, "area_exit"), "area_exit");
}
