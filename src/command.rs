use vstd::prelude::*;
use vstd::string::StringExecFns;

verus! {

/// How a supervised process ended.
#[derive(Debug, Clone, Copy, PartialEq, Eq, Structural)]
pub enum Event {
    /// Exited with status 0.
    ExitSuccess,
    /// Exited with a status other than 0.
    ExitCode,
    /// Was terminated by a signal.
    ExitSignal,
}

/// Why a persistent command was not (re)started.
#[derive(Debug, Clone, PartialEq, Eq)]
pub enum PersistentCommandError {
    /// The command has already been started as often as its limit allows.
    SpawnLimitReached(usize),
    /// The operating system refused to create the process; holds its message.
    SpawnFailed(String),
    /// The restart policy forbids a restart after this kind of exit.
    MustNotRespawn(Event),
}

/// What the operating system is asked to start: a program and its arguments.
pub struct Launch {
    pub program: String,
    pub args: Vec<String>,
}

/// The words of a string, split at whitespace, as `str::split_whitespace` gives them.
pub uninterp spec fn words_of(s: Seq<char>) -> Seq<Seq<char>>;

/// Relies on `str::split_whitespace`: the words of `s`, in order; none for a
/// string that is empty.
#[verifier::external_body]
fn split_words(s: &str) -> (r: Vec<String>)
    ensures
        r@.map_values(|w: String| w@) == words_of(s@),
        s@.len() == 0 ==> r@.len() == 0,
{
    s.split_whitespace().map(|w| w.to_string()).collect()
}

/// A command kept alive by the supervisor, with its restart policy.
pub struct PersistentCommand<'a> {
    cmd: &'a str,
    args: &'a str,
    restart_on_success: bool,
    restart_on_error: bool,
    restart_on_signal: bool,
    spawn_limit: Option<usize>,
    spawns: usize,
}

impl<'a> PersistentCommand<'a> {
    pub closed spec fn program(&self) -> Seq<char> {
        self.cmd@
    }

    pub closed spec fn arguments(&self) -> Seq<char> {
        self.args@
    }

    pub closed spec fn on_success(&self) -> bool {
        self.restart_on_success
    }

    pub closed spec fn on_error(&self) -> bool {
        self.restart_on_error
    }

    pub closed spec fn on_signal(&self) -> bool {
        self.restart_on_signal
    }

    pub closed spec fn limit(&self) -> Option<usize> {
        self.spawn_limit
    }

    pub closed spec fn spawn_count(&self) -> usize {
        self.spawns
    }

    /// The policy flags and the limit, which no spawn changes.
    pub open spec fn same_policy(&self, other: &Self) -> bool {
        &&& self.program() == other.program()
        &&& self.arguments() == other.arguments()
        &&& self.on_success() == other.on_success()
        &&& self.on_error() == other.on_error()
        &&& self.on_signal() == other.on_signal()
        &&& self.limit() == other.limit()
    }

    /// Whether the policy allows a start after `previous` (a first start is always allowed).
    pub open spec fn allows_restart(&self, previous: Option<Event>) -> bool {
        match previous {
            None => true,
            Some(Event::ExitSuccess) => self.on_success(),
            Some(Event::ExitCode) => self.on_error(),
            Some(Event::ExitSignal) => self.on_signal(),
        }
    }

    /// Whether the spawn limit, if any, has been used up.
    pub open spec fn limit_reached(&self) -> bool {
        match self.limit() {
            Some(l) => self.spawn_count() >= l,
            None => false,
        }
    }

    /// What a spawn after `previous` does: `after` is the command afterwards
    /// and `r` the result.
    pub open spec fn spawn_post(
        &self,
        previous: Option<Event>,
        after: Self,
        r: Result<Launch, PersistentCommandError>,
    ) -> bool {
        &&& after.same_policy(self)
        &&& !self.allows_restart(previous) ==> r == Err::<Launch, PersistentCommandError>(
            PersistentCommandError::MustNotRespawn(previous->Some_0),
        )
        &&& self.allows_restart(previous) && self.limit_reached() ==> r == Err::<
            Launch,
            PersistentCommandError,
        >(PersistentCommandError::SpawnLimitReached(self.limit()->Some_0))
        &&& r is Err ==> after.spawn_count() == self.spawn_count()
        &&& self.allows_restart(previous) && !self.limit_reached() ==> {
            &&& r is Ok
            &&& r->Ok_0.program@ == self.program()
            &&& r->Ok_0.args@.map_values(|w: String| w@) == words_of(self.arguments())
            &&& after.spawn_count() == if self.spawn_count() < usize::MAX {
                self.spawn_count() + 1
            } else {
                self.spawn_count() as int
            }
        }
    }

    /// A command that never restarts and has no spawn limit.
    pub fn new(cmd: &'a str, args: &'a str) -> (r: Self)
        ensures
            r.program() == cmd@,
            r.arguments() == args@,
            !r.on_success(),
            !r.on_error(),
            !r.on_signal(),
            r.limit() is None,
            r.spawn_count() == 0,
    {
        PersistentCommand {
            cmd,
            args,
            restart_on_success: false,
            restart_on_error: false,
            restart_on_signal: false,
            spawn_limit: None,
            spawns: 0,
        }
    }

    /// Restart after an exit with status 0.
    pub fn restart_on_success(self, restart: bool) -> (r: Self)
        ensures
            r.on_success() == restart,
            r.program() == self.program(),
            r.arguments() == self.arguments(),
            r.on_error() == self.on_error(),
            r.on_signal() == self.on_signal(),
            r.limit() == self.limit(),
            r.spawn_count() == self.spawn_count(),
    {
        let mut s = self;
        s.restart_on_success = restart;
        s
    }

    /// Restart after an exit with a status other than 0.
    pub fn restart_on_error(self, restart: bool) -> (r: Self)
        ensures
            r.on_error() == restart,
            r.program() == self.program(),
            r.arguments() == self.arguments(),
            r.on_success() == self.on_success(),
            r.on_signal() == self.on_signal(),
            r.limit() == self.limit(),
            r.spawn_count() == self.spawn_count(),
    {
        let mut s = self;
        s.restart_on_error = restart;
        s
    }

    /// Restart after termination by a signal.
    pub fn restart_on_signal(self, restart: bool) -> (r: Self)
        ensures
            r.on_signal() == restart,
            r.program() == self.program(),
            r.arguments() == self.arguments(),
            r.on_success() == self.on_success(),
            r.on_error() == self.on_error(),
            r.limit() == self.limit(),
            r.spawn_count() == self.spawn_count(),
    {
        let mut s = self;
        s.restart_on_signal = restart;
        s
    }

    /// Start the command at most `limit` times in all.
    pub fn spawn_limit(self, limit: usize) -> (r: Self)
        ensures
            r.limit() == Some(limit),
            r.program() == self.program(),
            r.arguments() == self.arguments(),
            r.on_success() == self.on_success(),
            r.on_error() == self.on_error(),
            r.on_signal() == self.on_signal(),
            r.spawn_count() == self.spawn_count(),
    {
        let mut s = self;
        s.spawn_limit = Some(limit);
        s
    }

    /// How often the command has been started.
    pub fn spawns(&self) -> (r: usize)
        ensures
            r == self.spawn_count(),
    {
        self.spawns
    }

    /// Decides whether the command is to be started after `previous_exit_reason`
    /// (`None` for the first start). When it is, counts the start and returns
    /// the program with its whitespace-split arguments for the operating system.
    pub fn spawn(&mut self, previous_exit_reason: Option<Event>) -> (r: Result<
        Launch,
        PersistentCommandError,
    >)
        ensures
            old(self).spawn_post(previous_exit_reason, *final(self), r),
    {
        if let Some(reason) = previous_exit_reason {
            let allowed = match reason {
                Event::ExitSuccess => self.restart_on_success,
                Event::ExitCode => self.restart_on_error,
                Event::ExitSignal => self.restart_on_signal,
            };
            if !allowed {
                return Err(PersistentCommandError::MustNotRespawn(reason));
            }
        }
        if let Some(limit) = self.spawn_limit {
            if self.spawns >= limit {
                return Err(PersistentCommandError::SpawnLimitReached(limit));
            }
        }
        if self.spawns < usize::MAX {
            self.spawns = self.spawns + 1;
        }
        let program = self.cmd.to_owned();
        let args = split_words(self.args);
        Ok(Launch { program, args })
    }

    /// The command line, program and arguments separated by a space.
    pub fn describe(&self) -> (r: String)
        ensures
            r@ == self.program() + seq![' '] + self.arguments(),
    {
        let mut s = String::from_str(self.cmd);
        s.append(" ");
        s.append(self.args);
        proof {
            reveal_strlit(" ");
        }
        s
    }
}


/// How many of the results are successes.
pub open spec fn started(rs: Seq<Result<Launch, PersistentCommandError>>) -> nat
    decreases rs.len(),
{
    if rs.len() == 0 {
        0
    } else {
        started(rs.drop_last()) + if rs.last() is Ok {
            1nat
        } else {
            0nat
        }
    }
}

/// A command with spawn limit `n`, never started before, is started at most
/// `n` times over any run of spawns, whatever exits they follow: `cs[i + 1]`
/// is the command after the spawn that `prev[i]` asked for and that returned
/// `rs[i]`.
pub proof fn spawn_limit_caps_starts(
    cs: Seq<PersistentCommand>,
    prev: Seq<Option<Event>>,
    rs: Seq<Result<Launch, PersistentCommandError>>,
    n: usize,
)
    requires
        cs.len() == rs.len() + 1,
        prev.len() == rs.len(),
        cs[0].limit() == Some(n),
        cs[0].spawn_count() == 0,
        forall|i: int| 0 <= i < rs.len() ==> #[trigger] cs[i].spawn_post(prev[i], cs[i + 1], rs[i]),
    ensures
        started(rs) <= n,
{
    spawn_count_tracks_starts(cs, prev, rs, n);
}

proof fn spawn_count_tracks_starts(
    cs: Seq<PersistentCommand>,
    prev: Seq<Option<Event>>,
    rs: Seq<Result<Launch, PersistentCommandError>>,
    n: usize,
)
    requires
        cs.len() == rs.len() + 1,
        prev.len() == rs.len(),
        cs[0].limit() == Some(n),
        cs[0].spawn_count() == 0,
        forall|i: int| 0 <= i < rs.len() ==> #[trigger] cs[i].spawn_post(prev[i], cs[i + 1], rs[i]),
    ensures
        cs[rs.len() as int].spawn_count() == started(rs),
        started(rs) <= n,
        cs[rs.len() as int].limit() == Some(n),
    decreases rs.len(),
{
    if rs.len() > 0 {
        let m = rs.len() - 1;
        let cs1 = cs.drop_last();
        let prev1 = prev.drop_last();
        let rs1 = rs.drop_last();
        assert forall|i: int| 0 <= i < rs1.len() implies #[trigger] cs1[i].spawn_post(prev1[i], cs1[i + 1], rs1[i]) by {
            assert(cs[i].spawn_post(prev[i], cs[i + 1], rs[i]));
        }
        spawn_count_tracks_starts(cs1, prev1, rs1, n);
        assert(cs[m].spawn_post(prev[m], cs[m + 1], rs[m]));
    }
}

} // verus!
