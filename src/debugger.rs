use vstd::prelude::*;
use crate::backtrace::{Frame, walked_from};
use crate::breakpoint::{breakpoint_address, breakpoint_target};
use crate::inferior::{Breakpoint, Inferior, installs_exactly, pokes_anything, trap_write, traps_written};
use crate::status::{Status, TraceError};
use crate::symbols::SymbolTable;

verus! {

/// Why a debugger command failed.
#[derive(PartialEq, Eq, Structural)]
pub enum SessionError {
    /// `continue` or `backtrace` with no process running.
    NoActiveProcess,
    /// The target could not be started, or did not come under control.
    SpawnFailure,
    /// A breakpoint names no address: unknown function, unmapped line or a
    /// malformed address.
    BreakpointSpecUnresolved,
    /// A breakpoint could not be written into the running process.
    MemoryAccessFailure,
    /// `break` was not given exactly one argument.
    Usage,
    /// A tracing operation on the running process failed.
    Trace(TraceError),
}

/// A debugging session: at most one live traced process, and the list of
/// breakpoint addresses, which outlives every process.
///
/// `reaped` records, in order, the pid of every process the session has
/// killed and reaped.
pub struct Debugger {
    pub target: String,
    pub symbols: SymbolTable,
    pub inferior: Option<Inferior>,
    pub breakpoints: Vec<usize>,
    pub reaped: Ghost<Seq<i32>>,
}

/// Whether two handles describe the same process in the same state.
pub open spec fn same_process(a: Inferior, b: Inferior) -> bool {
    &&& a.pid == b.pid
    &&& a.installed@ == b.installed@
    &&& a.writes@ == b.writes@
    &&& a.reaped@ == b.reaped@
}

/// Whether `i` is a fresh process for the breakpoint list `addrs`: every
/// breakpoint installed, and its first writes exactly the trap writes.
pub open spec fn armed_with(i: Inferior, addrs: Seq<usize>) -> bool {
    &&& installs_exactly(i.installed@, addrs)
    &&& i.writes@.len() >= i.installed@.len()
    &&& traps_written(i.installed@, i.writes@.subrange(0, i.installed@.len() as int))
}

/// Whether a resume that returned `res` saw the process end.
pub open spec fn ends_process(res: Result<Status, TraceError>) -> bool {
    match res {
        Ok(Status::Exited(_)) | Ok(Status::Signaled(_)) => true,
        _ => false,
    }
}

impl Debugger {
    /// The live process, if any, has a positive pid and has not been reaped.
    pub open spec fn well_formed(&self) -> bool {
        self.inferior matches Some(i) ==> i.live()
    }

    /// A session for `target`, with its symbols, no process and no breakpoints.
    pub fn new(target: String, symbols: SymbolTable) -> (r: Debugger)
        ensures
            r.well_formed(),
            r.target@ == target@,
            r.symbols == symbols,
            r.inferior is None,
            r.breakpoints@.len() == 0,
            r.reaped@.len() == 0,
    {
        Debugger { target, symbols, inferior: None, breakpoints: Vec::new(), reaped: Ghost(Seq::empty()) }
    }

    /// Forgets the process, which has ended; the breakpoints stay.
    pub fn reset(&mut self)
        ensures
            final(self).well_formed(),
            final(self).inferior is None,
            final(self).breakpoints@ == old(self).breakpoints@,
            final(self).symbols == old(self).symbols,
            final(self).reaped@ == old(self).reaped@,
    {
        self.inferior = None;
    }

    /// Kills and reaps the live process, if any. If the kill fails the
    /// process is kept.
    fn stop_process(&mut self) -> (r: Result<(), TraceError>)
        requires
            old(self).well_formed(),
        ensures
            final(self).well_formed(),
            final(self).breakpoints@ == old(self).breakpoints@,
            final(self).symbols == old(self).symbols,
            r is Ok ==> final(self).inferior is None,
            r is Ok && old(self).inferior is Some ==> final(self).reaped@ == old(self).reaped@.push(
                old(self).inferior->0.pid,
            ),
            old(self).inferior is None ==> r is Ok && final(self).reaped@ == old(self).reaped@,
            r is Err ==> final(self).reaped@ == old(self).reaped@ && final(self).inferior is Some
                && same_process(final(self).inferior->0, old(self).inferior->0),
    {
        match self.inferior.take() {
            Some(mut inf) => {
                match inf.kill() {
                    Ok(()) => {
                        proof {
                            self.reaped@ = self.reaped@.push(inf.pid);
                        }
                        Ok(())
                    },
                    Err(e) => {
                        self.inferior = Some(inf);
                        Err(e)
                    },
                }
            },
            None => Ok(()),
        }
    }

    /// Applies the result of resuming the process to the session: after an
    /// exit or a death by signal there is no process any more.
    pub fn match_res(&mut self, res: Result<Status, TraceError>) -> (r: Result<Status, SessionError>)
        requires
            old(self).well_formed(),
        ensures
            final(self).well_formed(),
            ends_process(res) ==> final(self).inferior is None,
            !ends_process(res) ==> final(self).inferior == old(self).inferior,
            final(self).breakpoints@ == old(self).breakpoints@,
            final(self).symbols == old(self).symbols,
            final(self).reaped@ == old(self).reaped@,
            res matches Ok(s) ==> r == Ok::<Status, SessionError>(s),
            res matches Err(e) ==> r == Err::<Status, SessionError>(SessionError::Trace(e)),
    {
        match res {
            Ok(s) => {
                match s {
                    Status::Exited(_) | Status::Signaled(_) => self.reset(),
                    Status::Stopped(_, _) => {},
                }
                Ok(s)
            },
            Err(e) => Err(SessionError::Trace(e)),
        }
    }

    /// Starts the target afresh. The live process, if any, is killed and
    /// reaped first; only then is `spawn` called, which starts the target
    /// and returns its pid. Every breakpoint is installed in the new process,
    /// which then runs to its first stop. If the old process cannot be
    /// killed, nothing is started.
    pub fn run<S: Fn() -> Option<i32>, P: Fn(i32, usize, u64) -> bool>(&mut self, spawn: &S, poke: &P) -> (r: Result<Status, SessionError>)
        requires
            old(self).well_formed(),
            spawn.requires(()),
            pokes_anything(poke),
        ensures
            final(self).well_formed(),
            final(self).breakpoints@ == old(self).breakpoints@,
            final(self).symbols == old(self).symbols,
            old(self).inferior is None ==> final(self).reaped@ == old(self).reaped@,
            old(self).inferior is Some ==> (final(self).reaped@ == old(self).reaped@.push(
                old(self).inferior->0.pid,
            )) || (final(self).reaped@ == old(self).reaped@ && (r matches Err(SessionError::Trace(_)))
                && final(self).inferior is Some && same_process(
                final(self).inferior->0,
                old(self).inferior->0,
            )),
            final(self).inferior is Some && final(self).reaped@ == old(self).reaped@.push(
                old(self).inferior->0.pid,
            ) ==> armed_with(final(self).inferior->0, old(self).breakpoints@),
            old(self).inferior is None && final(self).inferior is Some ==> armed_with(
                final(self).inferior->0,
                old(self).breakpoints@,
            ),
            final(self).inferior is None ==> r == Err::<Status, SessionError>(SessionError::SpawnFailure)
                || (r matches Ok(Status::Exited(_))) || (r matches Ok(Status::Signaled(_))),
            r == Err::<Status, SessionError>(SessionError::SpawnFailure) ==> final(self).inferior is None,
            r matches Err(SessionError::Trace(_)) ==> final(self).inferior is Some,
            r matches Ok(Status::Stopped(_, _)) ==> final(self).inferior is Some,
            r matches Ok(Status::Exited(_)) ==> final(self).inferior is None,
            r matches Ok(Status::Signaled(_)) ==> final(self).inferior is None,
    {
        match self.stop_process() {
            Ok(()) => {},
            Err(e) => {
                assert(self.reaped@.len() != old(self).reaped@.len() + 1);
                return Err(SessionError::Trace(e));
            },
        }
        let pid = match spawn() {
            Some(p) => p,
            None => return Err(SessionError::SpawnFailure),
        };
        if pid <= 0 {
            return Err(SessionError::SpawnFailure);
        }
        let mut inf = match Inferior::new(pid, &self.breakpoints, poke) {
            Some(i) => i,
            None => return Err(SessionError::SpawnFailure),
        };
        let ghost armed = inf;
        let res = inf.cont(poke);
        proof {
            assert(inf.writes@.subrange(0, inf.installed@.len() as int) =~= armed.writes@);
        }
        self.inferior = Some(inf);
        self.match_res(res)
    }

    /// Resumes the live process until its next stop or its end.
    pub fn cont<P: Fn(i32, usize, u64) -> bool>(&mut self, poke: &P) -> (r: Result<Status, SessionError>)
        requires
            old(self).well_formed(),
            pokes_anything(poke),
        ensures
            final(self).well_formed(),
            old(self).inferior is None <==> r == Err::<Status, SessionError>(SessionError::NoActiveProcess),
            old(self).inferior is None ==> final(self).inferior is None,
            final(self).breakpoints@ == old(self).breakpoints@,
            final(self).symbols == old(self).symbols,
            final(self).reaped@ == old(self).reaped@,
            final(self).inferior matches Some(i) ==> old(self).inferior matches Some(j) && i.pid == j.pid
                && i.installed@ == j.installed@,
            r matches Err(SessionError::Trace(_)) ==> final(self).inferior is Some,
            r matches Ok(Status::Stopped(_, _)) ==> final(self).inferior is Some,
            r matches Ok(Status::Exited(_)) ==> final(self).inferior is None,
            r matches Ok(Status::Signaled(_)) ==> final(self).inferior is None,
    {
        match self.inferior.take() {
            None => Err(SessionError::NoActiveProcess),
            Some(mut inf) => {
                let res = inf.cont(poke);
                self.inferior = Some(inf);
                match self.match_res(res) {
                    Ok(s) => Ok(s),
                    Err(e) => {
                        assert(e != SessionError::NoActiveProcess);
                        Err(e)
                    },
                }
            },
        }
    }

    /// The call stack of the live process, innermost frame first: the frames
    /// of the walk of its saved frame pointers.
    pub fn backtrace(&self) -> (r: Result<Vec<Frame>, SessionError>)
        ensures
            self.inferior is None <==> r == Err::<Vec<Frame>, SessionError>(SessionError::NoActiveProcess),
            r is Ok ==> exists|pc: usize, fp: usize, ws: Seq<(usize, usize)>|
                #[trigger] walked_from(self.symbols, ws, pc, fp, r->Ok_0@),
            r is Err && self.inferior is Some ==> r == Err::<Vec<Frame>, SessionError>(
                SessionError::Trace(TraceError::CallFailed),
            ),
    {
        match &self.inferior {
            None => Err(SessionError::NoActiveProcess),
            Some(inf) => match inf.backtrace(&self.symbols) {
                Ok(frames) => {
                    let r: Result<Vec<Frame>, SessionError> = Ok(frames);
                    proof {
                        let (pc, fp, ws) = choose|pc: usize, fp: usize, ws: Seq<(usize, usize)>|
                            #[trigger] walked_from(self.symbols, ws, pc, fp, frames@);
                        assert(r->Ok_0@ == frames@);
                        assert(walked_from(self.symbols, ws, pc, fp, r->Ok_0@));
                    }
                    r
                },
                Err(e) => Err(SessionError::Trace(e)),
            },
        }
    }

    /// Adds a breakpoint at `addr` and, when a process is live, installs it
    /// there; if that fails the breakpoint is taken back out and the process
    /// is left as it was. Returns the new breakpoint's number.
    pub fn add_breakpoint<P: Fn(i32, usize, u64) -> bool>(&mut self, addr: usize, poke: &P) -> (r: Result<usize, SessionError>)
        requires
            old(self).well_formed(),
            pokes_anything(poke),
        ensures
            final(self).well_formed(),
            final(self).symbols == old(self).symbols,
            final(self).reaped@ == old(self).reaped@,
            r matches Ok(n) ==> n == old(self).breakpoints@.len() && final(self).breakpoints@
                == old(self).breakpoints@.push(addr),
            r is Err ==> final(self).breakpoints@ == old(self).breakpoints@ && r == Err::<
                usize,
                SessionError,
            >(SessionError::MemoryAccessFailure),
            old(self).inferior is None ==> r is Ok && final(self).inferior is None,
            old(self).inferior is Some ==> final(self).inferior is Some,
            r is Err && old(self).inferior is Some ==> same_process(
                final(self).inferior->0,
                old(self).inferior->0,
            ),
            r is Ok && old(self).inferior is Some ==> ({
                let i = final(self).inferior->0;
                let j = old(self).inferior->0;
                &&& i.pid == j.pid && i.reaped@ == j.reaped@
                &&& crate::inferior::has_breakpoint(i.installed@, addr as int)
                &&& (i.installed@ == j.installed@ && i.writes@ == j.writes@) || (exists|b: u8|
                    i.installed@ == j.installed@.push(Breakpoint { addr, saved: b })
                        && i.writes@.len() == j.writes@.len() + 1 && i.writes@.drop_last()
                        == j.writes@ && #[trigger] trap_write(Breakpoint { addr, saved: b }, i.writes@.last()))
            }),
    {
        let n = self.breakpoints.len();
        match self.inferior.take() {
            None => {
                self.breakpoints.push(addr);
                Ok(n)
            },
            Some(mut inf) => {
                let ghost before = inf.installed@;
                let res = inf.append_breakpoint(addr, poke);
                proof {
                    if res is Ok && !crate::inferior::has_breakpoint(before, addr as int) {
                        assert(inf.installed@[before.len() as int].addr == addr);
                        let b = res->Ok_0;
                        assert(inf.installed@ == before.push(Breakpoint { addr, saved: b }));
                    }
                }
                self.inferior = Some(inf);
                match res {
                    Ok(_) => {
                        self.breakpoints.push(addr);
                        Ok(n)
                    },
                    Err(_) => Err(SessionError::MemoryAccessFailure),
                }
            },
        }
    }

    /// Handles `break <spec>`: resolves the single argument to an address
    /// and adds a breakpoint there. A spec that resolves to nothing changes
    /// neither the breakpoint list nor the live process.
    pub fn break_at<P: Fn(i32, usize, u64) -> bool>(&mut self, args: &Vec<String>, poke: &P) -> (r: Result<usize, SessionError>)
        requires
            old(self).well_formed(),
            pokes_anything(poke),
        ensures
            final(self).well_formed(),
            final(self).symbols == old(self).symbols,
            final(self).reaped@ == old(self).reaped@,
            args@.len() != 1 <==> r == Err::<usize, SessionError>(SessionError::Usage),
            r == Err::<usize, SessionError>(SessionError::BreakpointSpecUnresolved) <==> (args@.len() == 1
                && breakpoint_target(old(self).symbols, args@[0]@) is None),
            r is Err ==> r == Err::<usize, SessionError>(SessionError::Usage) || r == Err::<
                usize,
                SessionError,
            >(SessionError::BreakpointSpecUnresolved) || r == Err::<usize, SessionError>(
                SessionError::MemoryAccessFailure,
            ),
            old(self).inferior is None && args@.len() == 1 && breakpoint_target(
                old(self).symbols,
                args@[0]@,
            ) is Some ==> r is Ok,
            r matches Ok(n) ==> n == old(self).breakpoints@.len() && args@.len() == 1 && breakpoint_target(
                old(self).symbols,
                args@[0]@,
            ) == Some(final(self).breakpoints@.last() as int) && final(self).breakpoints@.drop_last()
                == old(self).breakpoints@ && final(self).breakpoints@.len() == old(self).breakpoints@.len()
                + 1,
            r is Err ==> final(self).breakpoints@ == old(self).breakpoints@,
            old(self).inferior is None ==> final(self).inferior is None,
            old(self).inferior is Some ==> final(self).inferior is Some,
            r is Err && old(self).inferior is Some ==> same_process(
                final(self).inferior->0,
                old(self).inferior->0,
            ),
            r is Ok && old(self).inferior is Some ==> final(self).inferior->0.pid == old(self).inferior->0.pid && crate::inferior::has_breakpoint(
                final(self).inferior->0.installed@,
                final(self).breakpoints@.last() as int,
            ),
    {
        if args.len() != 1 {
            return Err(SessionError::Usage);
        }
        match breakpoint_address(&self.symbols, args[0].as_str()) {
            None => Err(SessionError::BreakpointSpecUnresolved),
            Some(addr) => {
                let r = self.add_breakpoint(addr, poke);
                proof {
                    if r is Ok {
                        assert(self.breakpoints@.drop_last() =~= old(self).breakpoints@);
                    }
                }
                r
            },
        }
    }

    /// Ends the session: kills and reaps the live process, if any. If the
    /// kill fails the process is kept and the failure returned.
    pub fn quit(&mut self) -> (r: Result<(), SessionError>)
        requires
            old(self).well_formed(),
        ensures
            final(self).well_formed(),
            final(self).breakpoints@ == old(self).breakpoints@,
            r is Ok ==> final(self).inferior is None,
            r is Ok && old(self).inferior is Some ==> final(self).reaped@ == old(self).reaped@.push(
                old(self).inferior->0.pid,
            ),
            old(self).inferior is None ==> r is Ok && final(self).reaped@ == old(self).reaped@,
            r is Err ==> final(self).inferior is Some && final(self).reaped@ == old(self).reaped@,
    {
        match self.stop_process() {
            Ok(()) => Ok(()),
            Err(e) => Err(SessionError::Trace(e)),
        }
    }
}

} // verus!
