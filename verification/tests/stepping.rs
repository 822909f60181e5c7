use robotrace_sim::stepping::{FailureLatch, FailureStage, StepStart};

#[test]
fn a_fresh_run_steps_until_finished() {
    let latch = FailureLatch::new();
    assert_eq!(latch.failure(), None);
    assert_eq!(latch.begin_step(false), StepStart::Proceed);
    assert_eq!(latch.begin_step(true), StepStart::Finished);
}

#[test]
fn a_failure_is_reported_by_every_later_step() {
    let mut latch = FailureLatch::new();
    let text = latch.fail(FailureStage::Physics, 1500, "nonfinite state");
    assert_eq!(text, "physics failure at t=1500 us: nonfinite state");
    assert_eq!(latch.failure(), Some(&text));
    assert_eq!(latch.begin_step(false), StepStart::Failed(text.clone()));
    assert_eq!(latch.begin_step(true), StepStart::Failed(text));
}

#[test]
fn event_failures_name_their_stage() {
    let mut latch = FailureLatch::new();
    assert_eq!(
        latch.fail(FailureStage::Event, 0, "bad output"),
        "event failure at t=0 us: bad output"
    );
}
