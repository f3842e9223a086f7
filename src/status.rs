use vstd::prelude::*;
use crate::trace::WaitOutcome;

verus! {

/// The state of the traced process after a wait.
pub enum Status {
    /// Stopped by a signal (its number), at an instruction pointer.
    Stopped(i32, usize),
    /// Exited normally with an exit code.
    Exited(i32),
    /// Killed by a signal (its number).
    Signaled(i32),
}

/// Why an operation on the traced process failed.
#[derive(PartialEq, Eq, Structural)]
pub enum TraceError {
    /// A tracing call into the operating system failed, for instance on an
    /// address that is not mapped.
    CallFailed,
    /// The wait reported something other than a stop, an exit or a death
    /// by signal, which the tracing contract rules out.
    UnexpectedWaitResult,
}

/// The status that a wait outcome stands for, given the instruction pointer
/// read after a stop.
pub open spec fn status_of(outcome: WaitOutcome, pc: usize) -> Option<Status> {
    match outcome {
        WaitOutcome::Exited(code) => Some(Status::Exited(code)),
        WaitOutcome::Signaled(sig) => Some(Status::Signaled(sig)),
        WaitOutcome::Stopped(sig) => Some(Status::Stopped(sig, pc)),
        WaitOutcome::Other => None,
    }
}

/// Translates a wait outcome into a status; `pc` is the instruction pointer
/// read after a stop and is ignored otherwise.
pub fn translate_wait(outcome: WaitOutcome, pc: usize) -> (r: Result<Status, TraceError>)
    ensures
        status_of(outcome, pc) matches Some(s) ==> r == Ok::<Status, TraceError>(s),
        status_of(outcome, pc) is None ==> r == Err::<Status, TraceError>(TraceError::UnexpectedWaitResult),
{
    match outcome {
        WaitOutcome::Exited(code) => Ok(Status::Exited(code)),
        WaitOutcome::Signaled(sig) => Ok(Status::Signaled(sig)),
        WaitOutcome::Stopped(sig) => Ok(Status::Stopped(sig, pc)),
        WaitOutcome::Other => Err(TraceError::UnexpectedWaitResult),
    }
}

/// The result of a wait: its outcome, with the instruction pointer read
/// from the registers after a stop (`None` when that read failed).
pub open spec fn wait_result(outcome: WaitOutcome, pc: Option<usize>) -> Result<Status, TraceError> {
    match outcome {
        WaitOutcome::Exited(code) => Ok(Status::Exited(code)),
        WaitOutcome::Signaled(sig) => Ok(Status::Signaled(sig)),
        WaitOutcome::Stopped(sig) => match pc {
            Some(p) => Ok(Status::Stopped(sig, p)),
            None => Err(TraceError::CallFailed),
        },
        WaitOutcome::Other => Err(TraceError::UnexpectedWaitResult),
    }
}

/// Combines a wait outcome with the register read made after a stop.
pub fn status_after_wait(outcome: WaitOutcome, pc: Option<usize>) -> (r: Result<Status, TraceError>)
    ensures
        r == wait_result(outcome, pc),
{
    match outcome {
        WaitOutcome::Stopped(sig) => match pc {
            Some(p) => Ok(Status::Stopped(sig, p)),
            None => Err(TraceError::CallFailed),
        },
        _ => translate_wait(outcome, 0),
    }
}

} // verus!
