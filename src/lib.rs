//! Supervision core of a minimal init process: restart policy for
//! persistent commands, orphan escalation, reaping and child discovery.

pub mod command;
pub mod orphan;
pub mod procfs;
pub mod reap;
pub mod reaper;

pub use command::{Event, Launch, PersistentCommand, PersistentCommandError};
pub use orphan::{OrphanSignal, OrphanState, INVALID_PID_ERRNO};
pub use procfs::{find_field, list_children, parent_pid, parse_pid, read_entry, ProcEntry, PARENT_FIELD};
pub use reap::{carcass_of, reap, Carcass, WaitOutcome};
pub use reaper::{Reaper, Respawn};
