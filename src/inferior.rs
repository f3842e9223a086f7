use vstd::prelude::*;
use crate::backtrace::{Frame, StackMemory, MAX_FRAMES, walk_frames, walked_from};
use crate::memory::{TRAP_OPCODE, align_addr_to_word, patch_word, word_base, byte_shift, byte_at, replace_byte};
use crate::status::{Status, TraceError, status_after_wait, wait_result};
use crate::symbols::SymbolTable;
use crate::trace::{WaitOutcome, wait_pid, peek_word, registers, set_pc, resume, single_step, send_kill};

verus! {

/// A breakpoint patched into the traced process, with the byte it replaced.
pub struct Breakpoint {
    pub addr: usize,
    pub saved: u8,
}

/// One process under tracing control.
///
/// Memory is written through a caller-supplied `poke(pid, addr, word)`
/// that stores a whole word and reports whether it succeeded; `writes`
/// records, in order, every word stored that way. `reaped` becomes true
/// once the process has been killed and its end collected.
pub struct Inferior {
    pub pid: i32,
    pub installed: Vec<Breakpoint>,
    pub writes: Ghost<Seq<(int, u64)>>,
    pub reaped: Ghost<bool>,
}

/// Whether a breakpoint at `addr` is among `bs`.
pub open spec fn has_breakpoint(bs: Seq<Breakpoint>, addr: int) -> bool {
    exists|i: int| 0 <= i < bs.len() && (#[trigger] bs[i]).addr == addr
}

/// What a stop looks like to the user: a trap just past an installed
/// breakpoint is reported at the breakpoint's own address.
pub open spec fn reported_status(bs: Seq<Breakpoint>, s: Status) -> Status {
    match s {
        Status::Stopped(sig, pc) => if pc > 0 && has_breakpoint(bs, pc - 1) {
            Status::Stopped(sig, (pc - 1) as usize)
        } else {
            s
        },
        _ => s,
    }
}

/// The trap at an installed breakpoint stops the process one byte past the
/// breakpoint; that stop is reported at the breakpoint's own address.
pub proof fn lemma_trap_stop_reported_at_breakpoint(bs: Seq<Breakpoint>, k: int, sig: i32)
    requires
        0 <= k < bs.len(),
        bs[k].addr < usize::MAX,
    ensures
        reported_status(bs, Status::Stopped(sig, (bs[k].addr + 1) as usize)) == Status::Stopped(
            sig,
            bs[k].addr,
        ),
{
    assert(has_breakpoint(bs, bs[k].addr as int));
}

/// Whether `entry` is the write that installed breakpoint `b`: the word
/// read at its address with the trap put in, where the byte replaced is the
/// one `b` saved.
pub open spec fn trap_write(b: Breakpoint, entry: (int, u64)) -> bool {
    exists|w: u64|
        entry == (word_base(b.addr as int), #[trigger] replace_byte(w, byte_shift(b.addr as int), TRAP_OPCODE))
            && b.saved == byte_at(w, byte_shift(b.addr as int))
}

/// Whether `log` holds exactly one trap write per breakpoint of `bs`, in order.
pub open spec fn traps_written(bs: Seq<Breakpoint>, log: Seq<(int, u64)>) -> bool {
    &&& log.len() == bs.len()
    &&& forall|k: int| 0 <= k < bs.len() ==> trap_write(#[trigger] bs[k], log[k])
}

/// The two words written to step over the breakpoint `b`: first the word
/// with the saved byte put back, then the word with the trap installed
/// again, each built from the word read just before it.
pub open spec fn step_over_writes(b: Breakpoint, first: u64, second: u64) -> Seq<(int, u64)> {
    seq![
        (word_base(b.addr as int), replace_byte(first, byte_shift(b.addr as int), b.saved)),
        (word_base(b.addr as int), replace_byte(second, byte_shift(b.addr as int), TRAP_OPCODE)),
    ]
}

/// Whether the process stopped at `pc` sits just past one of `bs`.
pub open spec fn past_breakpoint(bs: Seq<Breakpoint>, pc: usize) -> bool {
    pc > 0 && has_breakpoint(bs, pc - 1)
}

/// Whether `log` extends `before` by nothing, or by the two writes that
/// step over one of the breakpoints `bs`.
pub open spec fn writes_for_resume(bs: Seq<Breakpoint>, before: Seq<(int, u64)>, log: Seq<(int, u64)>) -> bool {
    log == before || exists|k: int, first: u64, second: u64|
        0 <= k < bs.len() && log == before + #[trigger] step_over_writes(bs[k], first, second)
}

/// Whether `log` starts with `before`: writes are only ever added.
pub open spec fn log_extends(before: Seq<(int, u64)>, log: Seq<(int, u64)>) -> bool {
    log.len() >= before.len() && log.subrange(0, before.len() as int) == before
}

proof fn lemma_log_extends_trans(a: Seq<(int, u64)>, b: Seq<(int, u64)>, c: Seq<(int, u64)>)
    requires
        log_extends(a, b),
        log_extends(b, c),
    ensures
        log_extends(a, c),
{
    assert(c.subrange(0, a.len() as int) =~= b.subrange(0, a.len() as int));
}

proof fn lemma_log_extends_push(a: Seq<(int, u64)>, x: (int, u64))
    ensures
        log_extends(a, a.push(x)),
        log_extends(a, a),
{
    assert(a.push(x).subrange(0, a.len() as int) =~= a);
    assert(a.subrange(0, a.len() as int) =~= a);
}

/// Whether `poke` may be called on any arguments.
pub open spec fn pokes_anything<P: Fn(i32, usize, u64) -> bool>(poke: &P) -> bool {
    forall|p: i32, a: usize, w: u64| poke.requires((p, a, w))
}

/// Whether every address of `addrs` holds one of the breakpoints `bs`, and
/// every breakpoint of `bs` is at one of `addrs`.
pub open spec fn installs_exactly(bs: Seq<Breakpoint>, addrs: Seq<usize>) -> bool {
    &&& forall|i: int| 0 <= i < addrs.len() ==> has_breakpoint(bs, #[trigger] addrs[i] as int)
    &&& forall|j: int| 0 <= j < bs.len() ==> addrs.contains(#[trigger] bs[j].addr)
}

impl Inferior {
    /// Whether this names one live process that has not been reaped.
    pub open spec fn live(&self) -> bool {
        self.pid > 0 && !self.reaped@
    }

    /// Takes control of process `pid`, which was started with tracing
    /// enabled: waits for its stop after `exec`, then installs a breakpoint
    /// at every address of `breakpoints`. If the process does not stop, or
    /// any breakpoint cannot be installed, the process is killed and nothing
    /// is returned.
    pub fn new<P: Fn(i32, usize, u64) -> bool>(pid: i32, breakpoints: &Vec<usize>, poke: &P) -> (r: Option<Inferior>)
        requires
            pid > 0,
            pokes_anything(poke),
        ensures
            r matches Some(inf) ==> inf.pid == pid && inf.live() && installs_exactly(inf.installed@, breakpoints@)
                && traps_written(inf.installed@, inf.writes@),
    {
        let mut inf = Inferior { pid, installed: Vec::new(), writes: Ghost(Seq::empty()), reaped: Ghost(false) };
        match inf.wait(true) {
            Ok(Status::Stopped(_, _)) => {},
            Ok(_) => return None,
            Err(_) => {
                let _ = inf.kill();
                return None;
            },
        }
        let mut i: usize = 0;
        while i < breakpoints.len()
            invariant
                pokes_anything(poke),
                inf.pid == pid,
                inf.live(),
                i <= breakpoints.len(),
                installs_exactly(inf.installed@, breakpoints@.subrange(0, i as int)),
                traps_written(inf.installed@, inf.writes@),
            decreases breakpoints.len() - i,
        {
            let addr = breakpoints[i];
            let ghost before = inf.installed@;
            let ghost log0 = inf.writes@;
            match inf.append_breakpoint(addr, poke) {
                Ok(_) => {},
                Err(_) => {
                    let _ = inf.kill();
                    return None;
                },
            }
            proof {
                let done = breakpoints@.subrange(0, i + 1);
                assert(done =~= breakpoints@.subrange(0, i as int).push(addr));
                assert(has_breakpoint(inf.installed@, addr as int)) by {
                    if !has_breakpoint(before, addr as int) {
                        let k = before.len() as int;
                        assert(inf.installed@[k].addr == addr);
                    }
                }
                assert forall|a: int| 0 <= a < done.len() implies has_breakpoint(
                    inf.installed@,
                    #[trigger] done[a] as int,
                ) by {
                    if a < i {
                        let prev = breakpoints@.subrange(0, i as int);
                        assert(done[a] == prev[a]);
                        assert(has_breakpoint(before, prev[a] as int));
                        let j = choose|j: int| 0 <= j < before.len() && (#[trigger] before[j]).addr == prev[a] as int;
                        assert(inf.installed@[j] == before[j]);
                    }
                }
                assert forall|j: int| 0 <= j < inf.installed@.len() implies done.contains(
                    #[trigger] inf.installed@[j].addr,
                ) by {
                    if j < before.len() {
                        assert(inf.installed@[j] == before[j]);
                        let prev = breakpoints@.subrange(0, i as int);
                        assert(prev.contains(before[j].addr));
                        let k = choose|k: int| 0 <= k < prev.len() && prev[k] == before[j].addr;
                        assert(done[k] == prev[k]);
                    } else {
                        assert(done[i as int] == addr);
                    }
                }
                assert forall|k: int| 0 <= k < inf.installed@.len() implies trap_write(
                    #[trigger] inf.installed@[k],
                    inf.writes@[k],
                ) by {
                    if k < before.len() {
                        assert(inf.installed@[k] == before[k]);
                        assert(inf.writes@[k] == log0[k]);
                    }
                }
            }
            i += 1;
        }
        assert(breakpoints@.subrange(0, breakpoints@.len() as int) =~= breakpoints@);
        Some(inf)
    }

    /// The process id of the traced process.
    pub fn pid(&self) -> (r: i32)
        ensures
            r == self.pid,
    {
        self.pid
    }

    /// The byte saved when the breakpoint at `addr` was installed.
    pub fn saved_byte(&self, addr: usize) -> (r: Option<u8>)
        ensures
            r is Some <==> has_breakpoint(self.installed@, addr as int),
            r matches Some(b) ==> exists|i: int|
                0 <= i < self.installed@.len() && (#[trigger] self.installed@[i]).addr == addr
                    && self.installed@[i].saved == b,
    {
        let mut i: usize = 0;
        while i < self.installed.len()
            invariant
                i <= self.installed.len(),
                forall|j: int| 0 <= j < i ==> (#[trigger] self.installed@[j]).addr != addr,
            decreases self.installed.len() - i,
        {
            if self.installed[i].addr == addr {
                return Some(self.installed[i].saved);
            }
            i += 1;
        }
        None
    }

    /// Sets the byte at `addr` to `val` by reading the word that holds it,
    /// replacing that one byte and writing the word back; returns the byte
    /// that was there before.
    pub fn write_byte<P: Fn(i32, usize, u64) -> bool>(&mut self, addr: usize, val: u8, poke: &P) -> (r: Result<u8, TraceError>)
        requires
            pokes_anything(poke),
        ensures
            final(self).pid == old(self).pid,
            final(self).reaped@ == old(self).reaped@,
            final(self).installed@ == old(self).installed@,
            r matches Ok(b) ==> exists|w: u64|
                final(self).writes@ == old(self).writes@.push(
                    (word_base(addr as int), #[trigger] replace_byte(w, byte_shift(addr as int), val)),
                ) && b == byte_at(w, byte_shift(addr as int)),
            r is Err ==> final(self).writes@ == old(self).writes@,
            r is Err ==> r == Err::<u8, TraceError>(TraceError::CallFailed),
            log_extends(old(self).writes@, final(self).writes@),
    {
        proof {
            lemma_log_extends_push(self.writes@, (0, 0));
        }
        let aligned = align_addr_to_word(addr);
        let word = match peek_word(self.pid, aligned) {
            Ok(w) => w as u64,
            Err(_) => return Err(TraceError::CallFailed),
        };
        let (updated, orig) = patch_word(word, addr, val);
        if poke(self.pid, aligned, updated) {
            proof {
                lemma_log_extends_push(self.writes@, (aligned as int, updated));
                self.writes@ = self.writes@.push((aligned as int, updated));
            }
            Ok(orig)
        } else {
            Err(TraceError::CallFailed)
        }
    }

    /// Installs a breakpoint at `addr` by patching in the trap instruction,
    /// and returns the byte it replaced. An address that already holds one
    /// of this process's breakpoints is left as it is, and the byte saved for
    /// it is returned.
    pub fn append_breakpoint<P: Fn(i32, usize, u64) -> bool>(&mut self, addr: usize, poke: &P) -> (r: Result<u8, TraceError>)
        requires
            pokes_anything(poke),
        ensures
            final(self).pid == old(self).pid,
            final(self).reaped@ == old(self).reaped@,
            has_breakpoint(old(self).installed@, addr as int) ==> final(self).installed@ == old(self).installed@
                && final(self).writes@ == old(self).writes@ && (r matches Ok(b) && exists|i: int|
                0 <= i < old(self).installed@.len() && (#[trigger] old(self).installed@[i]).addr == addr
                    && old(self).installed@[i].saved == b),
            r matches Ok(b) ==> (!has_breakpoint(old(self).installed@, addr as int)
                ==> final(self).installed@ == old(self).installed@.push(Breakpoint { addr, saved: b })
                && final(self).writes@.len() == old(self).writes@.len() + 1
                && final(self).writes@.drop_last() == old(self).writes@
                && trap_write(Breakpoint { addr, saved: b }, final(self).writes@.last())),
            r is Err ==> final(self).installed@ == old(self).installed@ && final(self).writes@
                == old(self).writes@,
    {
        match self.saved_byte(addr) {
            Some(b) => Ok(b),
            None => {
                let ghost log0 = self.writes@;
                let b = self.write_byte(addr, TRAP_OPCODE, poke)?;
                proof {
                    let w = choose|w: u64|
                        self.writes@ == log0.push(
                            (word_base(addr as int), #[trigger] replace_byte(w, byte_shift(addr as int), TRAP_OPCODE)),
                        ) && b == byte_at(w, byte_shift(addr as int));
                    assert(self.writes@.last() == (word_base(addr as int), replace_byte(w, byte_shift(addr as int), TRAP_OPCODE)));
                    let bp = Breakpoint { addr, saved: b };
                    assert(bp.addr == addr && bp.saved == b);
                    assert(self.writes@.last() == (word_base(bp.addr as int), replace_byte(w, byte_shift(bp.addr as int), TRAP_OPCODE))
                        && bp.saved == byte_at(w, byte_shift(bp.addr as int)));
                    assert(trap_write(bp, self.writes@.last()));
                }
                self.installed.push(Breakpoint { addr, saved: b });
                assert(self.writes@.drop_last() =~= log0);
                Ok(b)
            },
        }
    }

    /// Waits for the traced process to change state (for a stop only when
    /// `stopped_only` is set) and reports the new state; after a stop the
    /// instruction pointer is read from its registers.
    pub fn wait(&self, stopped_only: bool) -> (r: Result<Status, TraceError>)
        ensures
            r == Err::<Status, TraceError>(TraceError::CallFailed) || exists|o: WaitOutcome, pc: Option<usize>|
                r == wait_result(o, pc),
    {
        match wait_pid(self.pid, stopped_only) {
            Ok(outcome) => {
                let pc = match outcome {
                    WaitOutcome::Stopped(_) => match registers(self.pid) {
                        Ok(regs) => Some(regs.0),
                        Err(_) => None,
                    },
                    _ => None,
                };
                status_after_wait(outcome, pc)
            },
            Err(_) => Err(TraceError::CallFailed),
        }
    }

    /// Rewrites a stop just past one of the installed breakpoints so that it
    /// is reported at the breakpoint's address.
    pub fn report_stop(&self, s: Status) -> (r: Status)
        ensures
            r == reported_status(self.installed@, s),
    {
        match s {
            Status::Stopped(sig, pc) => {
                if pc > 0 {
                    match self.saved_byte(pc - 1) {
                        Some(_) => Status::Stopped(sig, pc - 1),
                        None => Status::Stopped(sig, pc),
                    }
                } else {
                    Status::Stopped(sig, pc)
                }
            },
            Status::Exited(c) => Status::Exited(c),
            Status::Signaled(sig) => Status::Signaled(sig),
        }
    }

    /// Prepares the process, stopped with instruction pointer `pc`, to be
    /// resumed. When `pc` is just past one of its breakpoints, the
    /// instruction pointer is moved back to the breakpoint, the saved byte
    /// is put back, one instruction is stepped and the trap is installed
    /// again, so that the instruction under the breakpoint runs exactly once
    /// and uncorrupted. Returns `Some` status if the process ended during
    /// that step, `None` when it is ready to resume.
    pub fn step_over<P: Fn(i32, usize, u64) -> bool>(&mut self, pc: usize, poke: &P) -> (r: Result<Option<Status>, TraceError>)
        requires
            pokes_anything(poke),
        ensures
            final(self).pid == old(self).pid,
            final(self).reaped@ == old(self).reaped@,
            final(self).installed@ == old(self).installed@,
            !past_breakpoint(old(self).installed@, pc) ==> r == Ok::<Option<Status>, TraceError>(None)
                && final(self).writes@ == old(self).writes@,
            past_breakpoint(old(self).installed@, pc) && r == Ok::<Option<Status>, TraceError>(None)
                ==> exists|k: int, first: u64, second: u64|
                0 <= k < old(self).installed@.len() && old(self).installed@[k].addr == pc - 1
                    && final(self).writes@ == old(self).writes@ + #[trigger] step_over_writes(
                    old(self).installed@[k],
                    first,
                    second,
                ),
            r matches Ok(Some(s)) ==> !(s is Stopped),
            log_extends(old(self).writes@, final(self).writes@),
    {
        proof {
            lemma_log_extends_push(self.writes@, (0, 0));
        }
        if pc == 0 {
            return Ok(None);
        }
        let at = pc - 1;
        let saved = match self.saved_byte(at) {
            Some(b) => b,
            None => return Ok(None),
        };
        let ghost k = choose|i: int|
            0 <= i < self.installed@.len() && (#[trigger] self.installed@[i]).addr == at
                && self.installed@[i].saved == saved;
        let ghost log0 = self.writes@;
        if set_pc(self.pid, at).is_err() {
            return Err(TraceError::CallFailed);
        }
        self.write_byte(at, saved, poke)?;
        assert(log_extends(log0, self.writes@));
        let ghost first = choose|w: u64|
            self.writes@ == log0.push(
                (word_base(at as int), #[trigger] replace_byte(w, byte_shift(at as int), saved)),
            );
        let ghost log1 = self.writes@;
        if single_step(self.pid).is_err() {
            return Err(TraceError::CallFailed);
        }
        match self.wait(false)? {
            Status::Stopped(_, _) => {},
            Status::Exited(c) => return Ok(Some(Status::Exited(c))),
            Status::Signaled(sig) => return Ok(Some(Status::Signaled(sig))),
        }
        let res = self.write_byte(at, TRAP_OPCODE, poke);
        proof {
            lemma_log_extends_trans(log0, log1, self.writes@);
        }
        res?;
        proof {
            let second = choose|w: u64|
                self.writes@ == log1.push(
                    (word_base(at as int), #[trigger] replace_byte(w, byte_shift(at as int), TRAP_OPCODE)),
                );
            let b = self.installed@[k];
            assert(self.writes@ =~= log0 + step_over_writes(b, first, second));
        }
        Ok(None)
    }

    /// Resumes the stopped process and waits for its next stop or its end:
    /// reads the instruction pointer, steps over a breakpoint it sits just
    /// past (see `step_over`), resumes, waits, and reports a stop at a
    /// breakpoint at the breakpoint's address.
    pub fn cont<P: Fn(i32, usize, u64) -> bool>(&mut self, poke: &P) -> (r: Result<Status, TraceError>)
        requires
            pokes_anything(poke),
        ensures
            final(self).pid == old(self).pid,
            final(self).reaped@ == old(self).reaped@,
            final(self).installed@ == old(self).installed@,
            r matches Ok(s) ==> exists|raw: Status| s == reported_status(old(self).installed@, raw),
            r matches Ok(Status::Stopped(_, _)) ==> writes_for_resume(
                old(self).installed@,
                old(self).writes@,
                final(self).writes@,
            ),
            log_extends(old(self).writes@, final(self).writes@),
    {
        proof {
            lemma_log_extends_push(self.writes@, (0, 0));
        }
        let pc = match registers(self.pid) {
            Ok(regs) => regs.0,
            Err(_) => return Err(TraceError::CallFailed),
        };
        match self.step_over(pc, poke)? {
            Some(ended) => {
                assert(ended == reported_status(self.installed@, ended));
                return Ok(ended);
            },
            None => {},
        }
        if resume(self.pid).is_err() {
            return Err(TraceError::CallFailed);
        }
        let s = self.wait(false)?;
        Ok(self.report_stop(s))
    }

    /// Kills the traced process with SIGKILL and reaps it.
    pub fn kill(&mut self) -> (r: Result<(), TraceError>)
        requires
            old(self).pid > 0,
        ensures
            final(self).pid == old(self).pid,
            final(self).installed@ == old(self).installed@,
            final(self).writes@ == old(self).writes@,
            r is Ok ==> final(self).reaped@,
            r is Err ==> final(self).reaped@ == old(self).reaped@,
    {
        if send_kill(self.pid).is_err() {
            return Err(TraceError::CallFailed);
        }
        match self.wait(false) {
            Ok(_) => {
                proof {
                    self.reaped@ = true;
                }
                Ok(())
            },
            Err(e) => Err(e),
        }
    }

    /// The frames of the call stack of the stopped process, innermost
    /// first, found by walking its saved frame pointers.
    pub fn backtrace(&self, table: &SymbolTable) -> (r: Result<Vec<Frame>, TraceError>)
        ensures
            r is Ok ==> exists|pc: usize, fp: usize, ws: Seq<(usize, usize)>|
                #[trigger] walked_from(*table, ws, pc, fp, r->Ok_0@),
            r is Err ==> r == Err::<Vec<Frame>, TraceError>(TraceError::CallFailed),
    {
        let (pc, fp) = match registers(self.pid) {
            Ok(regs) => regs,
            Err(_) => return Err(TraceError::CallFailed),
        };
        let mem = StackMemory { pid: Some(self.pid), words: Vec::new() };
        let frames = walk_frames(table, &mem, pc, fp);
        proof {
            let ws = choose|ws: Seq<(usize, usize)>|
                ws.len() >= mem.words@.len() && ws.subrange(0, mem.words@.len() as int) == mem.words@
                    && #[trigger] walked_from(*table, ws, pc, fp, frames@);
            assert(walked_from(*table, ws, pc, fp, frames@));
        }
        let r: Result<Vec<Frame>, TraceError> = Ok(frames);
        assert(r->Ok_0@ == frames@);
        assert(walked_from(*table, choose|ws: Seq<(usize, usize)>| #[trigger] walked_from(*table, ws, pc, fp, frames@), pc, fp, r->Ok_0@));
        r
    }
}

} // verus!
