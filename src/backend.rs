use vstd::prelude::*;
use crate::corpus::copy_bytes;
use crate::minimizer::remove_chunk;
use crate::target::ExecutionOutcome;

verus! {

/// The alarm signal, which the forked child receives when its time is up.
pub const SIGALRM: i32 = 14;

/// The second user signal, which also reports a timeout.
pub const SIGUSR2: i32 = 12;

/// How a forked child that ran one candidate ended.
#[derive(Clone, Copy, Debug, PartialEq, Eq, Structural)]
pub enum ChildStatus {
    /// It exited with this code.
    Exited(i32),
    /// A signal with this number ended it.
    Signaled(i32),
    /// It outlived the wall-clock budget and was stopped.
    TimedOut,
}

/// Whether `signal` reports a timeout rather than a fault.
pub open spec fn is_timeout_signal(signal: i32) -> bool {
    signal == SIGALRM || signal == SIGUSR2
}

/// The outcome of a forked run: a timeout signal or an exceeded budget is a
/// timeout; any other signal, or an exit code that stands for one (129 to
/// 159), is a crash; any other exit is normal.
pub open spec fn child_outcome(status: ChildStatus) -> ExecutionOutcome {
    match status {
        ChildStatus::TimedOut => ExecutionOutcome::Timeout,
        ChildStatus::Signaled(s) => if is_timeout_signal(s) {
            ExecutionOutcome::Timeout
        } else {
            ExecutionOutcome::Crash
        },
        ChildStatus::Exited(code) => if 128 < code < 160 {
            if is_timeout_signal((code - 128) as i32) {
                ExecutionOutcome::Timeout
            } else {
                ExecutionOutcome::Crash
            }
        } else {
            ExecutionOutcome::Normal
        },
    }
}

/// Classifies how a forked child ended.
pub fn classify_child(status: ChildStatus) -> (r: ExecutionOutcome)
    ensures
        r == child_outcome(status),
{
    match status {
        ChildStatus::TimedOut => ExecutionOutcome::Timeout,
        ChildStatus::Signaled(s) => if s == SIGALRM || s == SIGUSR2 {
            ExecutionOutcome::Timeout
        } else {
            ExecutionOutcome::Crash
        },
        ChildStatus::Exited(code) => if 128 < code && code < 160 {
            let s = code - 128;
            if s == SIGALRM || s == SIGUSR2 {
                ExecutionOutcome::Timeout
            } else {
                ExecutionOutcome::Crash
            }
        } else {
            ExecutionOutcome::Normal
        },
    }
}

/// Why emulation stopped after a candidate was resumed.
#[derive(Clone, Copy, Debug, PartialEq, Eq, Structural)]
pub enum StopReason {
    /// A breakpoint was hit.
    Breakpoint,
    /// The wall-clock budget elapsed.
    Timeout,
    /// The host asked the emulator to shut down.
    HostShutdown,
    /// The guest stopped the machine in a way nothing asked for.
    UnexpectedExit,
    /// Anything else the emulator reports.
    Other,
}

/// What the snapshot-restoring backend makes of a stop.
#[derive(Clone, Copy, Debug, PartialEq, Eq, Structural)]
pub enum EmulatorVerdict {
    /// The run ended with this outcome.
    Outcome(ExecutionOutcome),
    /// The host requested shutdown: the session ends, no outcome is recorded.
    Shutdown,
    /// The emulator is in a state the engine cannot go on from.
    Fatal,
}

/// Whether the program counter `pc` lies within the five bytes of the
/// exit breakpoint instruction at `exit`.
pub open spec fn at_exit(pc: u32, exit: u32) -> bool {
    exit <= pc && pc - exit < 5
}

/// A program counter as read, or 0 where it could not be read.
pub open spec fn pc_or_zero(pc: Option<u32>) -> u32 {
    match pc {
        Some(v) => v,
        None => 0,
    }
}

/// Whether some CPU stands at the exit breakpoint; a CPU whose program
/// counter could not be read counts as standing at address 0.
pub open spec fn some_cpu_at_exit(pcs: Seq<Option<u32>>, exit: u32) -> bool {
    exists|i: int| 0 <= i < pcs.len() && at_exit(#[trigger] pc_or_zero(pcs[i]), exit)
}

/// The verdict on a stop: at the exit breakpoint the run was normal, at any
/// other breakpoint it crashed; an elapsed budget is a timeout; a host
/// shutdown request ends the session; an unexpected exit is a crash.
pub open spec fn stop_verdict(reason: StopReason, pcs: Seq<Option<u32>>, exit: u32) -> EmulatorVerdict {
    match reason {
        StopReason::Breakpoint => if some_cpu_at_exit(pcs, exit) {
            EmulatorVerdict::Outcome(ExecutionOutcome::Normal)
        } else {
            EmulatorVerdict::Outcome(ExecutionOutcome::Crash)
        },
        StopReason::Timeout => EmulatorVerdict::Outcome(ExecutionOutcome::Timeout),
        StopReason::HostShutdown => EmulatorVerdict::Shutdown,
        StopReason::UnexpectedExit => EmulatorVerdict::Outcome(ExecutionOutcome::Crash),
        StopReason::Other => EmulatorVerdict::Fatal,
    }
}

/// Judges a stop of the emulator, given the program counters of its CPUs
/// and the address of the exit breakpoint.
pub fn classify_stop(reason: StopReason, pcs: &[Option<u32>], exit: u32) -> (r: EmulatorVerdict)
    ensures
        r == stop_verdict(reason, pcs@, exit),
{
    match reason {
        StopReason::Breakpoint => {
            let mut i: usize = 0;
            let mut found = false;
            while i < pcs.len() && !found
                invariant
                    i <= pcs@.len(),
                    found ==> some_cpu_at_exit(pcs@, exit),
                    !found ==> forall|j: int| 0 <= j < i ==> !at_exit(#[trigger] pc_or_zero(pcs@[j]), exit),
                decreases pcs@.len() - i,
            {
                let pc: u32 = match pcs[i] {
                    Some(v) => v,
                    None => 0,
                };
                if exit <= pc && pc - exit < 5 {
                    assert(at_exit(pc_or_zero(pcs@[i as int]), exit));
                    found = true;
                }
                i = i + 1;
            }
            if found {
                EmulatorVerdict::Outcome(ExecutionOutcome::Normal)
            } else {
                EmulatorVerdict::Outcome(ExecutionOutcome::Crash)
            }
        },
        StopReason::Timeout => EmulatorVerdict::Outcome(ExecutionOutcome::Timeout),
        StopReason::HostShutdown => EmulatorVerdict::Shutdown,
        StopReason::UnexpectedExit => EmulatorVerdict::Outcome(ExecutionOutcome::Crash),
        StopReason::Other => EmulatorVerdict::Fatal,
    }
}

/// The bytes written into the guest's input buffer: the candidate cut to
/// the buffer's `max_size` bytes.
pub fn injected_bytes(candidate: &[u8], max_size: usize) -> (r: Vec<u8>)
    ensures
        r@ == (if candidate@.len() > max_size { candidate@.take(max_size as int) } else { candidate@ }),
{
    if candidate.len() > max_size {
        let r = remove_chunk(candidate, max_size, candidate.len() - max_size);
        assert(r@ =~= candidate@.take(max_size as int));
        r
    } else {
        copy_bytes(candidate)
    }
}

/// Where a snapshot-restoring session stands.
#[derive(Clone, Copy, Debug, PartialEq, Eq, Structural)]
pub enum SessionPhase {
    /// The machine boots towards the injection breakpoint.
    Booting,
    /// The machine stands at the snapshot: a run may start.
    Ready,
    /// A candidate is running.
    Running,
    /// A run ended; the snapshot must be restored before the next.
    Stopped,
    /// The session is over.
    Closed,
}

/// A step asked of a session in a phase that does not allow it, or a boot
/// that did not reach the injection breakpoint.
#[derive(Clone, Copy, Debug, PartialEq, Eq, Structural)]
pub enum SessionError {
    OutOfOrder,
    BootFailed,
}

/// The decisions of the snapshot-restoring backend. The caller drives the
/// emulator: it boots to the injection breakpoint and takes the snapshot,
/// then for each candidate writes the bytes this session hands out,
/// resumes, reports the stop, and restores the snapshot. Each run starts
/// only from a restored snapshot.
pub struct SnapshotSession {
    phase: SessionPhase,
    exit: u32,
    max_input: usize,
    runs: u64,
}

impl SnapshotSession {
    pub closed spec fn phase(&self) -> SessionPhase {
        self.phase
    }

    pub closed spec fn exit(&self) -> u32 {
        self.exit
    }

    pub closed spec fn max_input(&self) -> nat {
        self.max_input as nat
    }

    /// The number of runs started.
    pub closed spec fn runs(&self) -> u64 {
        self.runs
    }

    /// A session for a guest whose exit breakpoint is at `exit` and whose
    /// input buffer holds `max_input` bytes.
    pub fn new(exit: u32, max_input: usize) -> (r: SnapshotSession)
        ensures
            r.phase() == SessionPhase::Booting,
            r.exit() == exit,
            r.max_input() == max_input,
            r.runs() == 0,
    {
        SnapshotSession { phase: SessionPhase::Booting, exit, max_input, runs: 0 }
    }

    /// The first stop of the boot. At a breakpoint (the injection point) the
    /// caller takes the snapshot and the session is ready; any other stop
    /// closes it.
    pub fn booted(&mut self, reason: StopReason) -> (r: Result<(), SessionError>)
        ensures
            final(self).exit() == old(self).exit(),
            final(self).max_input() == old(self).max_input(),
            final(self).runs() == old(self).runs(),
            old(self).phase() != SessionPhase::Booting ==> r == Err::<(), SessionError>(SessionError::OutOfOrder)
                && final(self).phase() == old(self).phase(),
            old(self).phase() == SessionPhase::Booting && reason == StopReason::Breakpoint ==> r == Ok::<
                (),
                SessionError,
            >(()) && final(self).phase() == SessionPhase::Ready,
            old(self).phase() == SessionPhase::Booting && reason != StopReason::Breakpoint ==> r == Err::<
                (),
                SessionError,
            >(SessionError::BootFailed) && final(self).phase() == SessionPhase::Closed,
    {
        if self.phase != SessionPhase::Booting {
            return Err(SessionError::OutOfOrder);
        }
        if reason == StopReason::Breakpoint {
            self.phase = SessionPhase::Ready;
            Ok(())
        } else {
            self.phase = SessionPhase::Closed;
            Err(SessionError::BootFailed)
        }
    }

    /// Starts a run of `candidate` from the snapshot: the bytes to write
    /// into the guest's input buffer.
    pub fn begin_run(&mut self, candidate: &[u8]) -> (r: Result<Vec<u8>, SessionError>)
        ensures
            final(self).exit() == old(self).exit(),
            final(self).max_input() == old(self).max_input(),
            old(self).phase() != SessionPhase::Ready ==> r is Err && final(self).phase() == old(self).phase()
                && final(self).runs() == old(self).runs(),
            old(self).phase() == SessionPhase::Ready ==> {
                &&& r is Ok
                &&& r.unwrap()@ == (if candidate@.len() > old(self).max_input() {
                    candidate@.take(old(self).max_input() as int)
                } else {
                    candidate@
                })
                &&& final(self).phase() == SessionPhase::Running
                &&& final(self).runs() == (if old(self).runs() < u64::MAX {
                    (old(self).runs() + 1) as u64
                } else {
                    old(self).runs()
                })
            },
    {
        if self.phase != SessionPhase::Ready {
            return Err(SessionError::OutOfOrder);
        }
        self.phase = SessionPhase::Running;
        if self.runs < u64::MAX {
            self.runs = self.runs + 1;
        }
        Ok(injected_bytes(candidate, self.max_input))
    }

    /// Ends the running candidate at a stop of the emulator. A shutdown
    /// request or an unusable state closes the session; otherwise the
    /// snapshot is to be restored next.
    pub fn end_run(&mut self, reason: StopReason, pcs: &[Option<u32>]) -> (r: Result<EmulatorVerdict, SessionError>)
        ensures
            final(self).exit() == old(self).exit(),
            final(self).max_input() == old(self).max_input(),
            final(self).runs() == old(self).runs(),
            old(self).phase() != SessionPhase::Running ==> r == Err::<EmulatorVerdict, SessionError>(
                SessionError::OutOfOrder,
            ) && final(self).phase() == old(self).phase(),
            old(self).phase() == SessionPhase::Running ==> {
                let v = stop_verdict(reason, pcs@, old(self).exit());
                &&& r == Ok::<EmulatorVerdict, SessionError>(v)
                &&& final(self).phase() == (if v is Outcome {
                    SessionPhase::Stopped
                } else {
                    SessionPhase::Closed
                })
            },
    {
        if self.phase != SessionPhase::Running {
            return Err(SessionError::OutOfOrder);
        }
        let v = classify_stop(reason, pcs, self.exit);
        self.phase = match v {
            EmulatorVerdict::Outcome(_) => SessionPhase::Stopped,
            _ => SessionPhase::Closed,
        };
        Ok(v)
    }

    /// Records that the snapshot was restored after a run.
    pub fn restored(&mut self) -> (r: Result<(), SessionError>)
        ensures
            final(self).exit() == old(self).exit(),
            final(self).max_input() == old(self).max_input(),
            final(self).runs() == old(self).runs(),
            old(self).phase() == SessionPhase::Stopped ==> r == Ok::<(), SessionError>(()) && final(self).phase()
                == SessionPhase::Ready,
            old(self).phase() != SessionPhase::Stopped ==> r == Err::<(), SessionError>(SessionError::OutOfOrder)
                && final(self).phase() == old(self).phase(),
    {
        if self.phase != SessionPhase::Stopped {
            return Err(SessionError::OutOfOrder);
        }
        self.phase = SessionPhase::Ready;
        Ok(())
    }
}

} // verus!
