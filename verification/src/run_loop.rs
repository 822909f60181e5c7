//! The decisions of a logged run: at each step boundary, whether the state
//! is logged, and after a step, whether the run goes on. The caller steps
//! the simulation and writes the logs.
use vstd::prelude::*;

verus! {

/// Whether the state at a step boundary is logged: at the log period or at
/// the end of the run (`should_log`), and always when the run was just
/// cancelled, so that the last state reached is on record.
pub fn boundary_logged(should_log: bool, cancelled: bool) -> (r: bool)
    ensures
        r == (should_log || cancelled),
{
    should_log || cancelled
}

/// Whether the run goes on after a step boundary at which it was not
/// cancelled: when the simulation took its step (`stepped`), or when it
/// could not because it is finished and the state at that boundary was not
/// logged, so that one more boundary logs the final state.
pub fn run_goes_on(stepped: bool, logged: bool, finished: bool) -> (r: bool)
    ensures
        r == (stepped || (!logged && finished)),
{
    if stepped {
        true
    } else {
        !logged && finished
    }
}

/// The termination reason written for a run: `cancelled` when it was
/// cancelled, else the simulation's own reason.
pub fn run_termination(cancelled: bool, reason: &'static str) -> (r: &'static str)
    ensures
        cancelled ==> r@ == "cancelled"@,
        !cancelled ==> r == reason,
{
    if cancelled {
        "cancelled"
    } else {
        reason
    }
}

} // verus!
