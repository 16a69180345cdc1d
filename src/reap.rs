use vstd::prelude::*;
use crate::command::Event;
use nix::sys::wait::{waitpid, WaitPidFlag, WaitStatus};

verus! {

/// A terminated child as one non-blocking wait reported it: its pid and
/// either its exit status or the signal that ended it.
#[derive(Debug, Clone, Copy, PartialEq, Eq, Structural)]
pub struct Carcass {
    pub pid: i32,
    pub status: Option<i32>,
    pub signal: Option<i32>,
}

/// What one non-blocking wait for any child reported.
#[derive(Debug, Clone, Copy, PartialEq, Eq, Structural)]
pub enum WaitOutcome {
    Exited { pid: i32, status: i32 },
    Signaled { pid: i32, signal: i32 },
    /// Children exist, none has terminated.
    StillAlive,
    /// A stop, a continue or a trace event.
    Other,
    /// The wait failed with this error number (no children at all, for one).
    Failed(i32),
}

/// Relies on `nix::sys::wait::waitpid` for any child with `WNOHANG`: it never
/// blocks and reports at most one child state change, which it consumes.
#[verifier::external_body]
fn wait_any_child() -> (r: WaitOutcome) {
    match waitpid(None, Some(WaitPidFlag::WNOHANG)) {
        Ok(WaitStatus::Exited(pid, st)) => WaitOutcome::Exited { pid: pid.as_raw(), status: st },
        Ok(WaitStatus::Signaled(pid, sig, _)) => WaitOutcome::Signaled {
            pid: pid.as_raw(),
            signal: sig as i32,
        },
        Ok(WaitStatus::StillAlive) => WaitOutcome::StillAlive,
        Ok(_) => WaitOutcome::Other,
        Err(e) => WaitOutcome::Failed(e as i32),
    }
}

impl Carcass {
    /// Exactly one of status and signal is set.
    pub open spec fn well_formed(self) -> bool {
        self.status is Some != self.signal is Some
    }

    pub open spec fn spec_event(self) -> Event {
        match self.status {
            Some(0) => Event::ExitSuccess,
            Some(_) => Event::ExitCode,
            None => Event::ExitSignal,
        }
    }

    /// How the process ended: status 0, another status, or a signal.
    pub fn event(&self) -> (r: Event)
        ensures
            r == self.spec_event(),
    {
        match self.status {
            Some(0) => Event::ExitSuccess,
            Some(_) => Event::ExitCode,
            None => Event::ExitSignal,
        }
    }
}

pub open spec fn spec_carcass_of(w: WaitOutcome) -> Option<Carcass> {
    match w {
        WaitOutcome::Exited { pid, status } => Some(Carcass { pid, status: Some(status), signal: None }),
        WaitOutcome::Signaled { pid, signal } => Some(Carcass { pid, status: None, signal: Some(signal) }),
        _ => None,
    }
}

/// The terminated child that a wait reported, if it reported one; every
/// other outcome counts as nothing having happened.
pub fn carcass_of(w: WaitOutcome) -> (r: Option<Carcass>)
    ensures
        r == spec_carcass_of(w),
        r matches Some(c) ==> c.well_formed(),
{
    match w {
        WaitOutcome::Exited { pid, status } => Some(Carcass { pid, status: Some(status), signal: None }),
        WaitOutcome::Signaled { pid, signal } => Some(Carcass { pid, status: None, signal: Some(signal) }),
        _ => None,
    }
}

/// Reaps one terminated child without blocking, if there is one.
pub fn reap() -> (r: Option<Carcass>)
    ensures
        r matches Some(c) ==> c.well_formed(),
        exists|w: WaitOutcome| r == #[trigger] spec_carcass_of(w),
{
    let w = wait_any_child();
    carcass_of(w)
}

} // verus!
