//! The failure record of a simulation run: a failed step stops the run for
//! good, and every later step reports the same failure.
use vstd::prelude::*;
use crate::text::{decimal, push_decimal};

verus! {

/// Where a step failed: in the physics integration, or in the events
/// processed after it.
#[derive(Debug, Clone, Copy, PartialEq, Eq, Structural)]
pub enum FailureStage {
    Physics,
    Event,
}

/// How a step may begin: not at all because an earlier step failed (with
/// that failure), not at all because the run is finished, or normally.
#[derive(Debug, Clone, PartialEq)]
pub enum StepStart {
    Failed(String),
    Finished,
    Proceed,
}

/// The text recorded for a failure at simulated time `t_us`.
pub open spec fn failure_text(stage: FailureStage, t_us: u64, error: Seq<char>) -> Seq<char> {
    (match stage {
        FailureStage::Physics => "physics failure at t="@,
        FailureStage::Event => "event failure at t="@,
    }) + decimal(t_us as nat) + " us: "@ + error
}

/// The first failure of a run, if it failed.
#[derive(Debug)]
pub struct FailureLatch {
    failure: Option<String>,
}

impl View for FailureLatch {
    type V = Option<Seq<char>>;

    closed spec fn view(&self) -> Option<Seq<char>> {
        match self.failure {
            Some(e) => Some(e@),
            None => None,
        }
    }
}

impl FailureLatch {
    /// A run that has not failed.
    pub fn new() -> (r: Self)
        ensures
            r@ is None,
    {
        FailureLatch { failure: None }
    }

    /// The recorded failure, if any.
    pub fn failure(&self) -> (r: Option<&String>)
        ensures
            (match r {
                Some(e) => Some(e@),
                None => None,
            }) == self@,
    {
        match &self.failure {
            Some(e) => Some(e),
            None => None,
        }
    }

    /// How the next step begins: a recorded failure is reported again,
    /// before anything else; a finished run takes no step.
    pub fn begin_step(&self, finished: bool) -> (r: StepStart)
        ensures
            self@ matches Some(e) ==> (r matches StepStart::Failed(m) && m@ == e),
            self@ is None && finished ==> r == StepStart::Finished,
            self@ is None && !finished ==> r == StepStart::Proceed,
    {
        match &self.failure {
            Some(e) => StepStart::Failed(e.clone()),
            None => if finished {
                StepStart::Finished
            } else {
                StepStart::Proceed
            },
        }
    }

    /// Records that the step at simulated time `t_us` failed at `stage` with
    /// `error`, and returns the recorded text. A step is only taken while
    /// no failure is recorded.
    pub fn fail(&mut self, stage: FailureStage, t_us: u64, error: &str) -> (r: String)
        requires
            old(self)@ is None,
        ensures
            r@ == failure_text(stage, t_us, error@),
            final(self)@ == Some(r@),
    {
        let mut text = match stage {
            FailureStage::Physics => "physics failure at t=".to_owned(),
            FailureStage::Event => "event failure at t=".to_owned(),
        };
        push_decimal(&mut text, t_us);
        text.append(" us: ");
        text.append(error);
        self.failure = Some(text.clone());
        text
    }
}

} // verus!
