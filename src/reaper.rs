use vstd::prelude::*;
use crate::command::{Event, Launch, PersistentCommand, PersistentCommandError};
use crate::orphan::OrphanState;
use crate::procfs::{children_in, list_children, ProcEntry};
use crate::reap::Carcass;

verus! {

/// Relies on `nix::unistd::getpid`: the pid of the calling process.
#[verifier::external_body]
fn own_pid() -> (r: i32) {
    nix::unistd::getpid().as_raw()
}

/// Some record of the table is about `pid`.
pub open spec fn tracked_in(s: Seq<OrphanState>, pid: i32) -> bool {
    exists|i: int| 0 <= i < s.len() && #[trigger] s[i].spec_pid() == pid
}

/// No two records of the table are about the same pid.
pub open spec fn unique_pids(s: Seq<OrphanState>) -> bool {
    forall|i: int, j: int|
        0 <= i < s.len() && 0 <= j < s.len() && i != j ==> #[trigger] s[i].spec_pid()
            != #[trigger] s[j].spec_pid()
}

/// The table after adding an untouched record for each pid of `pids` that it
/// does not track yet, in order; tracked pids keep their records.
pub open spec fn with_marked(s: Seq<OrphanState>, pids: Seq<i32>) -> Seq<OrphanState>
    decreases pids.len(),
{
    if pids.len() == 0 {
        s
    } else {
        let t = with_marked(s, pids.drop_last());
        if tracked_in(t, pids.last()) {
            t
        } else {
            t.push(OrphanState::Untouched(pids.last()))
        }
    }
}

/// `b` is what one `advance` at `now` can make of `a`.
pub open spec fn advanced_by(a: OrphanState, b: OrphanState, now: u64) -> bool {
    exists|sent: Result<(), i32>| b == #[trigger] a.spec_next(sent, now)
}

/// Every record of `before` was advanced once, in place.
pub open spec fn advanced_all(before: Seq<OrphanState>, after: Seq<OrphanState>, now: u64) -> bool {
    &&& after.len() == before.len()
    &&& forall|i: int| 0 <= i < before.len() ==> #[trigger] advanced_by(before[i], after[i], now)
}

/// `after` is `before` without the record about `pid`, if there was one.
pub open spec fn removed(before: Seq<OrphanState>, after: Seq<OrphanState>, pid: i32) -> bool {
    ||| exists|k: int|
        0 <= k < before.len() && before[k].spec_pid() == pid && after == #[trigger] before.remove(
            k,
        )
    ||| !tracked_in(before, pid) && after == before
}

/// The pids of `all` that `known` does not hold, in order.
pub open spec fn fresh(all: Seq<i32>, known: Seq<i32>) -> Seq<i32>
    decreases all.len(),
{
    if all.len() == 0 {
        Seq::empty()
    } else {
        let r = fresh(all.drop_last(), known);
        if known.contains(all.last()) {
            r
        } else {
            r.push(all.last())
        }
    }
}

/// A registry entry: the live pid of a command, and the command.
pub type Entry<'a> = (i32, PersistentCommand<'a>);

pub open spec fn registered(s: Seq<Entry>, pid: i32) -> bool {
    exists|i: int| 0 <= i < s.len() && #[trigger] s[i].0 == pid
}

pub open spec fn unique_keys(s: Seq<Entry>) -> bool {
    forall|i: int, j: int|
        0 <= i < s.len() && 0 <= j < s.len() && i != j ==> #[trigger] s[i].0 != #[trigger] s[j].0
}

/// The position of the entry for `pid`, where there is one.
pub open spec fn key_index(s: Seq<Entry>, pid: i32) -> int {
    choose|i: int| 0 <= i < s.len() && s[i].0 == pid
}

/// The registry without the entry for `pid`.
pub open spec fn spec_take(s: Seq<Entry>, pid: i32) -> Seq<Entry> {
    if registered(s, pid) {
        s.remove(key_index(s, pid))
    } else {
        s
    }
}

/// The registry with `cmd` under `pid`, in place of any command there.
pub open spec fn spec_put<'a>(s: Seq<Entry<'a>>, pid: i32, cmd: PersistentCommand<'a>) -> Seq<Entry<'a>> {
    if registered(s, pid) {
        s.update(key_index(s, pid), (pid, cmd))
    } else {
        s.push((pid, cmd))
    }
}

/// The registry after a clean exit of `pid` where `new` holds the children
/// that appeared: the entry moves to the first of them, if any.
pub open spec fn spec_rekey<'a>(s: Seq<Entry<'a>>, pid: i32, new: Seq<i32>) -> Seq<Entry<'a>> {
    if registered(s, pid) && new.len() > 0 {
        spec_put(spec_take(s, pid), new[0], s[key_index(s, pid)].1)
    } else {
        s
    }
}


/// Whether `v` holds `p`.
fn contains_pid(v: &Vec<i32>, p: i32) -> (r: bool)
    ensures
        r == v@.contains(p),
{
    let mut i: usize = 0;
    while i < v.len()
        invariant
            0 <= i <= v@.len(),
            forall|j: int| 0 <= j < i ==> v@[j] != p,
        decreases v@.len() - i,
    {
        if v[i] == p {
            assert(v@[i as int] == p);
            return true;
        }
        i = i + 1;
    }
    false
}

/// A command taken out of the registry after its process ended, with the
/// outcome of the restart decision. Where `outcome` is a `Launch`, the caller
/// starts it and registers `command` under the new pid.
pub struct Respawn<'a> {
    pub command: PersistentCommand<'a>,
    pub outcome: Result<Launch, PersistentCommandError>,
}

/// The supervision state of the init process: its orphan table, the children
/// it knew at the last scan, and the registry of persistent commands keyed by
/// their live pid.
pub struct Reaper<'a> {
    orphans: Vec<OrphanState>,
    children: Vec<i32>,
    persistent_commands: Vec<Entry<'a>>,
    pid: i32,
}

impl<'a> Reaper<'a> {
    pub closed spec fn orphan_table(&self) -> Seq<OrphanState> {
        self.orphans@
    }

    pub closed spec fn known(&self) -> Seq<i32> {
        self.children@
    }

    pub closed spec fn registry(&self) -> Seq<Entry<'a>> {
        self.persistent_commands@
    }

    pub closed spec fn own(&self) -> i32 {
        self.pid
    }

    pub open spec fn wf(&self) -> bool {
        unique_pids(self.orphan_table()) && unique_keys(self.registry())
    }

    /// A reaper for the calling process, with nothing tracked.
    pub fn new() -> (r: Self)
        ensures
            r.wf(),
            r.orphan_table().len() == 0,
            r.known().len() == 0,
            r.registry().len() == 0,
    {
        Self::for_pid(own_pid())
    }

    /// A reaper that supervises the children of `pid`, with nothing tracked.
    pub fn for_pid(pid: i32) -> (r: Self)
        ensures
            r.wf(),
            r.own() == pid,
            r.orphan_table().len() == 0,
            r.known().len() == 0,
            r.registry().len() == 0,
    {
        Reaper { orphans: Vec::new(), children: Vec::new(), persistent_commands: Vec::new(), pid }
    }

    /// The position of the record about `pid`, if the table has one.
    fn find_orphan(&self, pid: i32) -> (r: Option<usize>)
        ensures
            match r {
                Some(k) => k < self.orphan_table().len() && self.orphan_table()[k as int].spec_pid() == pid,
                None => !tracked_in(self.orphan_table(), pid),
            },
    {
        let mut i: usize = 0;
        while i < self.orphans.len()
            invariant
                0 <= i <= self.orphans@.len(),
                forall|j: int| 0 <= j < i ==> #[trigger] self.orphans@[j].spec_pid() != pid,
            decreases self.orphans@.len() - i,
        {
            if self.orphans[i].pid() == pid {
                return Some(i);
            }
            i = i + 1;
        }
        None
    }

    /// The record about `pid`, if the table has one.
    pub fn orphan_state(&self, pid: i32) -> (r: Option<OrphanState>)
        ensures
            match r {
                Some(o) => o.spec_pid() == pid && self.orphan_table().contains(o),
                None => !tracked_in(self.orphan_table(), pid),
            },
    {
        match self.find_orphan(pid) {
            Some(k) => {
                let o = self.orphans[k];
                assert(self.orphan_table()[k as int] == o);
                Some(o)
            },
            None => None,
        }
    }

    /// How many records the orphan table holds.
    pub fn orphan_count(&self) -> (r: usize)
        ensures
            r == self.orphan_table().len(),
    {
        self.orphans.len()
    }

    /// Adds an untouched record for each pid of `orphans` that the table does
    /// not track yet; a tracked pid keeps its record.
    fn insert_orphans(&mut self, orphans: &[i32])
        requires
            unique_pids(old(self).orphan_table()),
        ensures
            unique_pids(final(self).orphan_table()),
            final(self).orphan_table() == with_marked(old(self).orphan_table(), orphans@),
            final(self).known() == old(self).known(),
            final(self).registry() == old(self).registry(),
            final(self).own() == old(self).own(),
    {
        let mut i: usize = 0;
        while i < orphans.len()
            invariant
                0 <= i <= orphans@.len(),
                unique_pids(self.orphan_table()),
                self.orphan_table() == with_marked(old(self).orphan_table(), orphans@.take(i as int)),
                self.known() == old(self).known(),
                self.registry() == old(self).registry(),
                self.own() == old(self).own(),
            decreases orphans@.len() - i,
        {
            let p = orphans[i];
            assert(orphans@.take(i + 1).drop_last() =~= orphans@.take(i as int));
            assert(orphans@.take(i + 1).last() == p);
            match self.find_orphan(p) {
                Some(_) => {},
                None => {
                    let ghost t = self.orphans@;
                    self.orphans.push(OrphanState::Untouched(p));
                    proof {
                        let s = self.orphans@;
                        assert forall|a: int, b: int|
                            0 <= a < s.len() && 0 <= b < s.len() && a != b implies #[trigger] s[a].spec_pid()
                            != #[trigger] s[b].spec_pid() by {
                            if a < t.len() {
                                assert(s[a] == t[a]);
                                assert(t[a].spec_pid() != p);
                            }
                            if b < t.len() {
                                assert(s[b] == t[b]);
                                assert(t[b].spec_pid() != p);
                            }
                        }
                    }
                },
            }
            i = i + 1;
        }
        assert(orphans@.take(i as int) =~= orphans@);
    }

    /// Advances every record of the orphan table once, at time `now`.
    pub fn transition_orphans(&mut self, now: u64)
        requires
            old(self).wf(),
        ensures
            final(self).wf(),
            advanced_all(old(self).orphan_table(), final(self).orphan_table(), now),
            final(self).known() == old(self).known(),
            final(self).registry() == old(self).registry(),
            final(self).own() == old(self).own(),
    {
        let mut i: usize = 0;
        while i < self.orphans.len()
            invariant
                0 <= i <= self.orphans@.len(),
                self.orphans@.len() == old(self).orphans@.len(),
                forall|j: int| 0 <= j < i ==> #[trigger] advanced_by(old(self).orphans@[j], self.orphans@[j], now),
                forall|j: int| i <= j < self.orphans@.len() ==> #[trigger] self.orphans@[j] == old(self).orphans@[j],
                forall|j: int| 0 <= j < self.orphans@.len() ==> #[trigger] self.orphans@[j].spec_pid() == old(self).orphans@[j].spec_pid(),
                self.known() == old(self).known(),
                self.registry() == old(self).registry(),
                self.own() == old(self).own(),
            decreases self.orphans@.len() - i,
        {
            let o = self.orphans[i];
            let n = o.advance(now);
            proof {
                if o.is_terminal() {
                    assert(n == o.spec_next(Ok(()), now));
                } else if o.spec_pid() <= 0 {
                    assert(n == o.spec_next(Err(crate::orphan::INVALID_PID_ERRNO), now));
                }
                assert(advanced_by(o, n, now));
            }
            self.orphans[i] = n;
            i = i + 1;
        }
        proof {
            let s = self.orphans@;
            let t = old(self).orphans@;
            assert forall|a: int, b: int|
                0 <= a < s.len() && 0 <= b < s.len() && a != b implies #[trigger] s[a].spec_pid()
                != #[trigger] s[b].spec_pid() by {
                assert(s[a].spec_pid() == t[a].spec_pid());
                assert(s[b].spec_pid() == t[b].spec_pid());
            }
        }
    }

    /// Marks `orphans` for termination: each pid not tracked yet gets an
    /// untouched record (a tracked pid keeps its record), and then every
    /// record is advanced once, so the first signal goes out at once.
    pub fn mark_orphans(&mut self, orphans: &[i32], now: u64)
        requires
            old(self).wf(),
        ensures
            final(self).wf(),
            advanced_all(with_marked(old(self).orphan_table(), orphans@), final(self).orphan_table(), now),
            final(self).known() == old(self).known(),
            final(self).registry() == old(self).registry(),
            final(self).own() == old(self).own(),
    {
        self.insert_orphans(orphans);
        self.transition_orphans(now);
    }

    /// Removes the record about `pid`, if there is one.
    pub fn forget_orphan(&mut self, pid: i32)
        requires
            old(self).wf(),
        ensures
            final(self).wf(),
            removed(old(self).orphan_table(), final(self).orphan_table(), pid),
            !tracked_in(final(self).orphan_table(), pid),
            final(self).known() == old(self).known(),
            final(self).registry() == old(self).registry(),
            final(self).own() == old(self).own(),
    {
        match self.find_orphan(pid) {
            Some(k) => {
                let ghost t = self.orphans@;
                self.orphans.remove(k);
                proof {
                    let s = self.orphans@;
                    assert(s == t.remove(k as int));
                    assert forall|a: int, b: int|
                        0 <= a < s.len() && 0 <= b < s.len() && a != b implies #[trigger] s[a].spec_pid()
                        != #[trigger] s[b].spec_pid() by {
                        let a2 = if a < k { a } else { a + 1 };
                        let b2 = if b < k { b } else { b + 1 };
                        assert(s[a] == t[a2]);
                        assert(s[b] == t[b2]);
                    }
                    assert forall|j: int| 0 <= j < s.len() implies #[trigger] s[j].spec_pid() != pid by {
                        let j2 = if j < k { j } else { j + 1 };
                        assert(s[j] == t[j2]);
                    }
                }
            },
            None => {},
        }
    }

    /// Scans the process table for the children of this process: returns
    /// those that were not known at the last scan, and remembers all of them.
    pub fn new_children(&mut self, entries: &Vec<ProcEntry>) -> (r: Vec<i32>)
        ensures
            final(self).known() == children_in(entries@, old(self).own()),
            r@ == fresh(children_in(entries@, old(self).own()), old(self).known()),
            final(self).orphan_table() == old(self).orphan_table(),
            final(self).registry() == old(self).registry(),
            final(self).own() == old(self).own(),
    {
        let all = list_children(self.pid, entries);
        let mut r: Vec<i32> = Vec::new();
        let mut i: usize = 0;
        while i < all.len()
            invariant
                0 <= i <= all@.len(),
                r@ == fresh(all@.take(i as int), self.children@),
            decreases all@.len() - i,
        {
            let p = all[i];
            assert(all@.take(i + 1).drop_last() =~= all@.take(i as int));
            assert(all@.take(i + 1).last() == p);
            if !contains_pid(&self.children, p) {
                r.push(p);
            }
            i = i + 1;
        }
        assert(all@.take(i as int) =~= all@);
        self.children = all;
        r
    }

    /// The position of the registry entry for `pid`, if there is one.
    fn find_command(&self, pid: i32) -> (r: Option<usize>)
        requires
            unique_keys(self.registry()),
        ensures
            match r {
                Some(k) => registered(self.registry(), pid) && k == key_index(self.registry(), pid),
                None => !registered(self.registry(), pid),
            },
    {
        let mut i: usize = 0;
        while i < self.persistent_commands.len()
            invariant
                0 <= i <= self.persistent_commands@.len(),
                unique_keys(self.registry()),
                forall|j: int| 0 <= j < i ==> #[trigger] self.persistent_commands@[j].0 != pid,
            decreases self.persistent_commands@.len() - i,
        {
            if self.persistent_commands[i].0 == pid {
                proof {
                    let s = self.registry();
                    assert(s[i as int].0 == pid);
                    assert(registered(s, pid));
                    let k = key_index(s, pid);
                    assert(s[k].0 == pid);
                    if k != i as int {
                        assert(s[k].0 != s[i as int].0);
                    }
                }
                return Some(i);
            }
            i = i + 1;
        }
        None
    }

    /// Whether a persistent command is registered under `pid`.
    pub fn is_supervised(&self, pid: i32) -> (r: bool)
        requires
            self.wf(),
        ensures
            r == registered(self.registry(), pid),
    {
        self.find_command(pid).is_some()
    }

    /// How often the command registered under `pid` has been started.
    pub fn spawns_of(&self, pid: i32) -> (r: Option<usize>)
        requires
            self.wf(),
        ensures
            r == if registered(self.registry(), pid) {
                Some(self.registry()[key_index(self.registry(), pid)].1.spawn_count())
            } else {
                None::<usize>
            },
    {
        match self.find_command(pid) {
            Some(k) => Some(self.persistent_commands[k].1.spawns()),
            None => None,
        }
    }

    /// How many commands the registry holds.
    pub fn supervised_count(&self) -> (r: usize)
        ensures
            r == self.registry().len(),
    {
        self.persistent_commands.len()
    }

    /// Registers `cmd` as the command whose live process is `pid`, in place of
    /// any command registered there.
    pub fn register(&mut self, pid: i32, cmd: PersistentCommand<'a>)
        requires
            old(self).wf(),
        ensures
            final(self).wf(),
            final(self).registry() == spec_put(old(self).registry(), pid, cmd),
            final(self).orphan_table() == old(self).orphan_table(),
            final(self).known() == old(self).known(),
            final(self).own() == old(self).own(),
    {
        match self.find_command(pid) {
            Some(k) => {
                self.persistent_commands[k] = (pid, cmd);
                proof {
                    let s = self.registry();
                    let t = old(self).registry();
                    assert forall|a: int, b: int|
                        0 <= a < s.len() && 0 <= b < s.len() && a != b implies #[trigger] s[a].0
                        != #[trigger] s[b].0 by {
                        assert(s[a].0 == t[a].0);
                        assert(s[b].0 == t[b].0);
                    }
                }
            },
            None => {
                let ghost t = self.registry();
                self.persistent_commands.push((pid, cmd));
                proof {
                    let s = self.registry();
                    assert forall|a: int, b: int|
                        0 <= a < s.len() && 0 <= b < s.len() && a != b implies #[trigger] s[a].0
                        != #[trigger] s[b].0 by {
                        if a < t.len() {
                            assert(s[a] == t[a]);
                            assert(t[a].0 != pid);
                        }
                        if b < t.len() {
                            assert(s[b] == t[b]);
                            assert(t[b].0 != pid);
                        }
                    }
                }
            },
        }
    }

    /// Takes the command registered under `pid` out of the registry.
    fn take_command(&mut self, pid: i32) -> (r: Option<PersistentCommand<'a>>)
        requires
            old(self).wf(),
        ensures
            final(self).wf(),
            final(self).registry() == spec_take(old(self).registry(), pid),
            r == if registered(old(self).registry(), pid) {
                Some(old(self).registry()[key_index(old(self).registry(), pid)].1)
            } else {
                None::<PersistentCommand<'a>>
            },
            final(self).orphan_table() == old(self).orphan_table(),
            final(self).known() == old(self).known(),
            final(self).own() == old(self).own(),
    {
        match self.find_command(pid) {
            Some(k) => {
                let ghost t = self.registry();
                let (_, cmd) = self.persistent_commands.remove(k);
                proof {
                    let s = self.registry();
                    assert(s == t.remove(k as int));
                    assert forall|a: int, b: int|
                        0 <= a < s.len() && 0 <= b < s.len() && a != b implies #[trigger] s[a].0
                        != #[trigger] s[b].0 by {
                        let a2 = if a < k { a } else { a + 1 };
                        let b2 = if b < k { b } else { b + 1 };
                        assert(s[a] == t[a2]);
                        assert(s[b] == t[b2]);
                    }
                }
                Some(cmd)
            },
            None => None,
        }
    }

    /// Moves the command registered under `pid` to `new_pid`, where `pid`
    /// forked and left `new_pid` behind.
    fn update_ensured_process_pid(&mut self, pid: i32, new_pid: i32)
        requires
            old(self).wf(),
        ensures
            final(self).wf(),
            final(self).registry() == if registered(old(self).registry(), pid) {
                spec_put(
                    spec_take(old(self).registry(), pid),
                    new_pid,
                    old(self).registry()[key_index(old(self).registry(), pid)].1,
                )
            } else {
                old(self).registry()
            },
            final(self).orphan_table() == old(self).orphan_table(),
            final(self).known() == old(self).known(),
            final(self).own() == old(self).own(),
    {
        if let Some(cmd) = self.take_command(pid) {
            self.register(new_pid, cmd);
        }
    }

    /// Takes the command registered under `pid`, if any, out of the registry
    /// and decides on its restart after `event`.
    fn ensure_process(&mut self, pid: i32, event: Event) -> (r: Option<Respawn<'a>>)
        requires
            old(self).wf(),
        ensures
            final(self).wf(),
            final(self).registry() == spec_take(old(self).registry(), pid),
            registered(old(self).registry(), pid) ==> {
                &&& r is Some
                &&& old(self).registry()[key_index(old(self).registry(), pid)].1.spawn_post(
                    Some(event),
                    r->Some_0.command,
                    r->Some_0.outcome,
                )
            },
            !registered(old(self).registry(), pid) ==> r is None,
            final(self).orphan_table() == old(self).orphan_table(),
            final(self).known() == old(self).known(),
            final(self).own() == old(self).own(),
    {
        match self.take_command(pid) {
            Some(cmd) => {
                let mut command = cmd;
                let outcome = command.spawn(Some(event));
                Some(Respawn { command, outcome })
            },
            None => None,
        }
    }

    /// Handles the death of a child reported by `carcass`, with `entries` the
    /// process table read right after it and `now` the time.
    ///
    /// Scans for new children; after an unclean exit they are marked as
    /// orphans (and signalled at once); after a clean exit of a supervised
    /// command that left new children behind, the command's entry moves to
    /// the first of them (the command daemonized itself). Then the restart
    /// policy of a command still registered under the dead pid decides, and
    /// its entry leaves the registry in any case. Finally the dead pid leaves
    /// the orphan table.
    pub fn handle_carcass(&mut self, carcass: &Carcass, entries: &Vec<ProcEntry>, now: u64) -> (r:
        Option<Respawn<'a>>)
        requires
            old(self).wf(),
        ensures
            final(self).wf(),
            final(self).own() == old(self).own(),
            final(self).known() == children_in(entries@, old(self).own()),
            carcass.spec_event() != Event::ExitSuccess ==> exists|mid: Seq<OrphanState>|
                #[trigger] advanced_all(
                    with_marked(
                        old(self).orphan_table(),
                        fresh(children_in(entries@, old(self).own()), old(self).known()),
                    ),
                    mid,
                    now,
                ) && removed(mid, final(self).orphan_table(), carcass.pid),
            carcass.spec_event() == Event::ExitSuccess ==> removed(
                old(self).orphan_table(),
                final(self).orphan_table(),
                carcass.pid,
            ),
            !tracked_in(final(self).orphan_table(), carcass.pid),
            ({
                let reg1 = if carcass.spec_event() == Event::ExitSuccess {
                    spec_rekey(
                        old(self).registry(),
                        carcass.pid,
                        fresh(children_in(entries@, old(self).own()), old(self).known()),
                    )
                } else {
                    old(self).registry()
                };
                &&& final(self).registry() == spec_take(reg1, carcass.pid)
                &&& registered(reg1, carcass.pid) ==> {
                    &&& r is Some
                    &&& reg1[key_index(reg1, carcass.pid)].1.spawn_post(
                        Some(carcass.spec_event()),
                        r->Some_0.command,
                        r->Some_0.outcome,
                    )
                }
                &&& !registered(reg1, carcass.pid) ==> r is None
            }),
    {
        let event = carcass.event();
        let children = self.new_children(entries);
        let ghost mid = self.orphan_table();
        match event {
            Event::ExitSuccess => {
                if children.len() > 0 {
                    self.update_ensured_process_pid(carcass.pid, children[0]);
                }
            },
            Event::ExitCode | Event::ExitSignal => {
                self.mark_orphans(children.as_slice(), now);
                proof {
                    mid = self.orphan_table();
                }
            },
        }
        let r = self.ensure_process(carcass.pid, event);
        self.forget_orphan(carcass.pid);
        r
    }
}

proof fn lemma_take_unregisters<'a>(s: Seq<Entry<'a>>, p: i32)
    requires
        unique_keys(s),
    ensures
        !registered(spec_take(s, p), p),
        unique_keys(spec_take(s, p)),
        forall|q: i32| q != p ==> registered(spec_take(s, p), q) == registered(s, q),
{
    if registered(s, p) {
        let k = key_index(s, p);
        let t = s.remove(k);
        assert forall|j: int| 0 <= j < t.len() implies #[trigger] t[j].0 != p by {
            let j2 = if j < k { j } else { j + 1 };
            assert(t[j] == s[j2]);
            assert(s[j2].0 != s[k].0);
        }
        assert forall|a: int, b: int|
            0 <= a < t.len() && 0 <= b < t.len() && a != b implies #[trigger] t[a].0
            != #[trigger] t[b].0 by {
            let a2 = if a < k { a } else { a + 1 };
            let b2 = if b < k { b } else { b + 1 };
            assert(t[a] == s[a2]);
            assert(t[b] == s[b2]);
        }
        assert forall|q: i32| q != p implies registered(t, q) == registered(s, q) by {
            if registered(s, q) {
                let i = choose|i: int| 0 <= i < s.len() && #[trigger] s[i].0 == q;
                let i2 = if i < k { i } else { i - 1 };
                assert(t[i2] == s[i]);
            }
            if registered(t, q) {
                let i = choose|i: int| 0 <= i < t.len() && #[trigger] t[i].0 == q;
                let i2 = if i < k { i } else { i + 1 };
                assert(t[i] == s[i2]);
            }
        }
    }
}

proof fn lemma_put_registers<'a>(s: Seq<Entry<'a>>, c: i32, cmd: PersistentCommand<'a>)
    requires
        unique_keys(s),
    ensures
        registered(spec_put(s, c, cmd), c),
        spec_put(s, c, cmd)[key_index(spec_put(s, c, cmd), c)] == (c, cmd),
        forall|q: i32| q != c ==> registered(spec_put(s, c, cmd), q) == registered(s, q),
{
    let t = spec_put(s, c, cmd);
    let k = if registered(s, c) { key_index(s, c) } else { s.len() as int };
    if registered(s, c) {
        assert(0 <= k < s.len() && s[k].0 == c);
    }
    assert(t.len() > k);
    assert(t[k] == (c, cmd));
    assert(t[k].0 == c);
    assert(registered(t, c));
    let k2 = key_index(t, c);
    if k2 != k {
        assert(t[k2] == s[k2]);
        if registered(s, c) {
            assert(s[k2].0 != s[k].0);
        } else {
            assert(s[k2].0 == c);
        }
    }
    assert forall|q: i32| q != c implies registered(t, q) == registered(s, q) by {
        if registered(s, q) {
            let i = choose|i: int| 0 <= i < s.len() && #[trigger] s[i].0 == q;
            assert(t[i] == s[i]);
        }
        if registered(t, q) {
            let i = choose|i: int| 0 <= i < t.len() && #[trigger] t[i].0 == q;
            assert(t[i] == s[i]);
        }
    }
}

/// A supervised command that exits cleanly and leaves exactly one new child
/// behind follows that child: after re-keying, the child's entry holds the
/// very same command (its spawn count unchanged), and no entry is left under
/// the dead pid, so no restart is decided and nothing is launched.
pub proof fn daemonized_command_follows_its_child<'a>(reg: Seq<Entry<'a>>, p: i32, c: i32)
    requires
        unique_keys(reg),
        registered(reg, p),
        c != p,
    ensures
        ({
            let reg1 = spec_rekey(reg, p, seq![c]);
            &&& !registered(reg1, p)
            &&& registered(reg1, c)
            &&& reg1[key_index(reg1, c)].1 == reg[key_index(reg, p)].1
            &&& reg1[key_index(reg1, c)].1.spawn_count() == reg[key_index(reg, p)].1.spawn_count()
            &&& spec_take(reg1, p) == reg1
        }),
{
    let cmd = reg[key_index(reg, p)].1;
    let t = spec_take(reg, p);
    lemma_take_unregisters(reg, p);
    assert(seq![c][0] == c);
    lemma_put_registers(t, c, cmd);
}

/// A supervised command that exits with a non-zero status while its policy
/// does not restart on error is refused with `MustNotRespawn(ExitCode)`, its
/// spawn count unchanged, and leaves the registry.
pub proof fn failed_command_is_dropped<'a>(
    reg: Seq<Entry<'a>>,
    p: i32,
    after: PersistentCommand<'a>,
    r: Result<Launch, PersistentCommandError>,
)
    requires
        unique_keys(reg),
        registered(reg, p),
        !reg[key_index(reg, p)].1.on_error(),
        reg[key_index(reg, p)].1.spawn_post(Some(Event::ExitCode), after, r),
    ensures
        r == Err::<Launch, PersistentCommandError>(
            PersistentCommandError::MustNotRespawn(Event::ExitCode),
        ),
        after.spawn_count() == reg[key_index(reg, p)].1.spawn_count(),
        !registered(spec_take(reg, p), p),
{
    lemma_take_unregisters(reg, p);
}

/// Forgetting a pid twice is forgetting it once: after the first removal the
/// table tracks the pid no more, and a second removal leaves it as it is.
pub proof fn forget_is_idempotent(a: Seq<OrphanState>, b: Seq<OrphanState>, c: Seq<OrphanState>, pid: i32)
    requires
        unique_pids(a),
        removed(a, b, pid),
        removed(b, c, pid),
    ensures
        !tracked_in(b, pid),
        c == b,
{
    if exists|k: int| 0 <= k < a.len() && a[k].spec_pid() == pid && b == #[trigger] a.remove(k) {
        let k = choose|k: int| 0 <= k < a.len() && a[k].spec_pid() == pid && b == #[trigger] a.remove(k);
        assert forall|j: int| 0 <= j < b.len() implies #[trigger] b[j].spec_pid() != pid by {
            let j2 = if j < k { j } else { j + 1 };
            assert(b[j] == a[j2]);
            assert(a[j2].spec_pid() != a[k].spec_pid());
        }
    }
}

} // verus!
