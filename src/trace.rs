//! The operating-system tracing calls the debugger makes, each behind a
//! small wrapper. What they return depends on the traced process, so their
//! contracts promise nothing about the values; the verified callers state
//! what holds for every outcome.

use vstd::prelude::*;
use nix::sys::ptrace;
use nix::sys::signal::{self, Signal};
use nix::sys::wait::{waitpid, WaitPidFlag, WaitStatus};
use nix::unistd::Pid;

verus! {

#[verifier::external_type_specification]
#[verifier::external_body]
pub struct ExErrno(nix::errno::Errno);

/// What a wait on the traced process reported, with signals as their numbers.
pub enum WaitOutcome {
    /// Exited normally with this exit code.
    Exited(i32),
    /// Killed by this signal.
    Signaled(i32),
    /// Stopped by this signal.
    Stopped(i32),
    /// Any other report (a ptrace event, a continue, still running).
    Other,
}

/// Relies on nix::sys::wait::waitpid: waits for a state change of `pid`,
/// only for a stop when `stopped_only` is set.
#[verifier::external_body]
pub(crate) fn wait_pid(pid: i32, stopped_only: bool) -> (r: Result<WaitOutcome, nix::errno::Errno>) {
    let flags = if stopped_only { Some(WaitPidFlag::WSTOPPED) } else { None };
    waitpid(Pid::from_raw(pid), flags).map(|s| match s {
        WaitStatus::Exited(_, code) => WaitOutcome::Exited(code),
        WaitStatus::Signaled(_, sig, _) => WaitOutcome::Signaled(sig as i32),
        WaitStatus::Stopped(_, sig) => WaitOutcome::Stopped(sig as i32),
        _ => WaitOutcome::Other,
    })
}

/// Relies on nix::sys::ptrace::read: reads the word of the traced process's
/// memory at `addr`.
#[verifier::external_body]
pub(crate) fn peek_word(pid: i32, addr: usize) -> (r: Result<usize, nix::errno::Errno>) {
    ptrace::read(Pid::from_raw(pid), addr as ptrace::AddressType).map(|w| w as usize)
}

/// Relies on nix::sys::ptrace::getregs: the instruction pointer and the
/// frame base register of the stopped process.
#[verifier::external_body]
pub(crate) fn registers(pid: i32) -> (r: Result<(usize, usize), nix::errno::Errno>) {
    ptrace::getregs(Pid::from_raw(pid)).map(|regs| (regs.rip as usize, regs.rbp as usize))
}

/// Relies on nix::sys::ptrace::getregs and nix::sys::ptrace::setregs: sets
/// the instruction pointer of the stopped process, keeping its other registers.
#[verifier::external_body]
pub(crate) fn set_pc(pid: i32, pc: usize) -> (r: Result<(), nix::errno::Errno>) {
    let mut regs = ptrace::getregs(Pid::from_raw(pid))?;
    regs.rip = pc as u64;
    ptrace::setregs(Pid::from_raw(pid), regs)
}

/// Relies on nix::sys::ptrace::cont: resumes the stopped process.
#[verifier::external_body]
pub(crate) fn resume(pid: i32) -> (r: Result<(), nix::errno::Errno>) {
    ptrace::cont(Pid::from_raw(pid), None)
}

/// Relies on nix::sys::ptrace::step: runs one instruction of the stopped process.
#[verifier::external_body]
pub(crate) fn single_step(pid: i32) -> (r: Result<(), nix::errno::Errno>) {
    ptrace::step(Pid::from_raw(pid), None)
}

/// Relies on nix::sys::signal::kill: sends SIGKILL to the process `pid`.
/// Only positive pids name one process; 0 and -1 would signal a group or
/// every process.
#[verifier::external_body]
pub(crate) fn send_kill(pid: i32) -> (r: Result<(), nix::errno::Errno>)
    requires
        pid > 0,
{
    signal::kill(Pid::from_raw(pid), Signal::SIGKILL)
}

} // verus!
