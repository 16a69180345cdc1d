use vstd::prelude::*;

verus! {

/// Where a process that lost its supervisor stands in its escalation.
#[derive(Debug, Clone, Copy, PartialEq, Eq, Structural)]
pub enum OrphanState {
    /// Found, nothing sent yet.
    Untouched(i32),
    /// SIGTERM has been delivered.
    AskedToExit(i32),
    /// SIGKILL has been delivered at `sent_at` (seconds on the caller's clock).
    ForciblyKilled { pid: i32, sent_at: u64 },
    /// Sending a signal failed with the error number `errno`; nothing more is done.
    Failed { pid: i32, errno: i32 },
}

/// The two signals of the escalation.
#[derive(Debug, Clone, Copy, PartialEq, Eq, Structural)]
pub enum OrphanSignal {
    Terminate,
    Kill,
}

/// The error number given for a pid that names no single process (zero or
/// negative), to which no signal is sent.
pub const INVALID_PID_ERRNO: i32 = 22;

/// Relies on `nix::sys::signal::kill`: sends SIGTERM or SIGKILL to the one
/// process `pid`; the error is the errno that the system call reported.
#[verifier::external_body]
fn send_signal(pid: i32, sig: OrphanSignal) -> (r: Result<(), i32>)
    requires
        pid > 0,
{
    let s = match sig {
        OrphanSignal::Terminate => nix::sys::signal::Signal::SIGTERM,
        OrphanSignal::Kill => nix::sys::signal::Signal::SIGKILL,
    };
    nix::sys::signal::kill(nix::unistd::Pid::from_raw(pid), s).map_err(|e| e as i32)
}

impl OrphanState {
    pub open spec fn spec_pid(self) -> i32 {
        match self {
            OrphanState::Untouched(p) => p,
            OrphanState::AskedToExit(p) => p,
            OrphanState::ForciblyKilled { pid, .. } => pid,
            OrphanState::Failed { pid, .. } => pid,
        }
    }

    /// Position along the escalation; `Failed` comes last and stays.
    pub open spec fn rank(self) -> nat {
        match self {
            OrphanState::Untouched(_) => 0,
            OrphanState::AskedToExit(_) => 1,
            OrphanState::ForciblyKilled { .. } => 2,
            OrphanState::Failed { .. } => 3,
        }
    }

    /// Neither a signal nor a further change is due.
    pub open spec fn is_terminal(self) -> bool {
        self is ForciblyKilled || self is Failed
    }

    /// The state that follows once the due signal was sent with outcome `sent`
    /// at time `now`.
    pub open spec fn spec_next(self, sent: Result<(), i32>, now: u64) -> OrphanState {
        match self {
            OrphanState::Untouched(p) => match sent {
                Ok(()) => OrphanState::AskedToExit(p),
                Err(e) => OrphanState::Failed { pid: p, errno: e },
            },
            OrphanState::AskedToExit(p) => match sent {
                Ok(()) => OrphanState::ForciblyKilled { pid: p, sent_at: now },
                Err(e) => OrphanState::Failed { pid: p, errno: e },
            },
            _ => self,
        }
    }

    /// One permitted move of the escalation (or none): the pid is kept, a
    /// terminal state stays as it is, and any other state moves one step
    /// forward or into `Failed`.
    pub open spec fn steps_to(self, next: OrphanState) -> bool {
        &&& next.spec_pid() == self.spec_pid()
        &&& self.is_terminal() ==> next == self
        &&& self is Untouched ==> (next is AskedToExit || next is Failed)
        &&& self is AskedToExit ==> (next is ForciblyKilled || next is Failed)
    }

    /// The process the record is about.
    pub fn pid(&self) -> (r: i32)
        ensures
            r == self.spec_pid(),
    {
        match self {
            OrphanState::Untouched(p) => *p,
            OrphanState::AskedToExit(p) => *p,
            OrphanState::ForciblyKilled { pid, .. } => *pid,
            OrphanState::Failed { pid, .. } => *pid,
        }
    }

    /// The state after the due signal was sent with outcome `sent` at `now`:
    /// a success moves one step on, an error moves to `Failed`, and a
    /// terminal state is kept.
    pub fn next_state(self, sent: Result<(), i32>, now: u64) -> (r: OrphanState)
        ensures
            r == self.spec_next(sent, now),
            self.steps_to(r),
    {
        match self {
            OrphanState::Untouched(p) => match sent {
                Ok(()) => OrphanState::AskedToExit(p),
                Err(e) => OrphanState::Failed { pid: p, errno: e },
            },
            OrphanState::AskedToExit(p) => match sent {
                Ok(()) => OrphanState::ForciblyKilled { pid: p, sent_at: now },
                Err(e) => OrphanState::Failed { pid: p, errno: e },
            },
            _ => self,
        }
    }

    /// The signal that escalation sends in this state: SIGTERM to an
    /// untouched orphan, SIGKILL to one that was asked to exit, none after.
    pub open spec fn spec_due(self) -> Option<OrphanSignal> {
        match self {
            OrphanState::Untouched(_) => Some(OrphanSignal::Terminate),
            OrphanState::AskedToExit(_) => Some(OrphanSignal::Kill),
            _ => None,
        }
    }

    /// The signal due in this state, if any.
    pub fn due_signal(&self) -> (r: Option<OrphanSignal>)
        ensures
            r == self.spec_due(),
    {
        match self {
            OrphanState::Untouched(_) => Some(OrphanSignal::Terminate),
            OrphanState::AskedToExit(_) => Some(OrphanSignal::Kill),
            _ => None,
        }
    }

    /// Sends the signal due in this state (`due_signal`), if any, to the
    /// record's pid, and returns the state that follows. A pid that names no
    /// single process is not signalled: the record fails with
    /// `INVALID_PID_ERRNO`.
    pub fn advance(self, now: u64) -> (r: OrphanState)
        ensures
            self.steps_to(r),
            self.spec_due() is None ==> r == self,
            self.spec_due() is Some && self.spec_pid() <= 0 ==> r == self.spec_next(
                Err(INVALID_PID_ERRNO),
                now,
            ),
            self.spec_due() is Some && self.spec_pid() > 0 ==> exists|sent: Result<(), i32>|
                r == #[trigger] self.spec_next(sent, now),
    {
        match self.due_signal() {
            Some(sig) => {
                let pid = self.pid();
                if pid <= 0 {
                    return self.next_state(Err(INVALID_PID_ERRNO), now);
                }
                let sent = send_signal(pid, sig);
                self.next_state(sent, now)
            },
            None => self,
        }
    }
}

/// A run of states in which each one follows from the one before by a
/// permitted move.
pub open spec fn is_escalation(run: Seq<OrphanState>) -> bool {
    forall|i: int| 0 <= i < run.len() - 1 ==> #[trigger] run[i].steps_to(run[i + 1])
}

/// Along any run of `advance` steps a record never moves back: its rank never
/// decreases, its pid never changes, and once it has failed it stays failed
/// and unchanged.
pub proof fn escalation_is_monotone(run: Seq<OrphanState>, i: int, j: int)
    requires
        is_escalation(run),
        0 <= i <= j < run.len(),
    ensures
        run[i].rank() <= run[j].rank(),
        run[i].spec_pid() == run[j].spec_pid(),
        run[i] is Failed ==> run[j] == run[i],
    decreases j - i,
{
    if i < j {
        escalation_is_monotone(run, i, j - 1);
        let k = j - 1;
        assert(run[k].steps_to(run[k + 1]));
    }
}

} // verus!
