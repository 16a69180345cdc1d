use librsinit::{
    carcass_of, find_field, list_children, parent_pid, parse_pid, read_entry, reap, Carcass,
    Event, OrphanSignal, OrphanState, PersistentCommand, PersistentCommandError, ProcEntry, Reaper,
    WaitOutcome, INVALID_PID_ERRNO,
};

/// Pids beyond the largest pid Linux hands out: no process has them, so a
/// signal sent to one fails with ESRCH.
const GHOST_A: i32 = 2_000_000_101;
const GHOST_B: i32 = 2_000_000_102;
const ESRCH: i32 = 3;

fn entry(pid: i32, ppid: i32) -> ProcEntry {
    let stat = format!("{} (proc{}) S {} {} {} 0 -1 4194560", pid, pid, ppid, pid, pid);
    ProcEntry { name: pid.to_string().into_bytes(), stat: Some(stat.into_bytes()) }
}

fn exited(pid: i32, status: i32) -> Carcass {
    Carcass { pid, status: Some(status), signal: None }
}

#[test]
fn spawn_limit_two_with_restart_on_error() {
    let mut cmd = PersistentCommand::new("/bin/true", "").spawn_limit(2).restart_on_error(true);
    assert!(cmd.spawn(None).is_ok());
    assert_eq!(cmd.spawns(), 1);
    assert!(cmd.spawn(Some(Event::ExitCode)).is_ok());
    assert_eq!(cmd.spawns(), 2);
    match cmd.spawn(Some(Event::ExitCode)) {
        Err(PersistentCommandError::SpawnLimitReached(2)) => {}
        _ => panic!("expected the spawn limit of 2"),
    }
    assert_eq!(cmd.spawns(), 2);
}

#[test]
fn no_restart_after_success_when_not_asked() {
    let mut cmd = PersistentCommand::new("/bin/true", "").restart_on_error(true).restart_on_signal(true);
    assert!(cmd.spawn(None).is_ok());
    for _ in 0..3 {
        match cmd.spawn(Some(Event::ExitSuccess)) {
            Err(PersistentCommandError::MustNotRespawn(Event::ExitSuccess)) => {}
            _ => panic!("expected a refusal"),
        }
        assert_eq!(cmd.spawns(), 1);
    }
}

#[test]
fn each_exit_kind_follows_its_flag() {
    let mut cmd = PersistentCommand::new("/bin/true", "").restart_on_success(true);
    assert!(cmd.spawn(Some(Event::ExitSuccess)).is_ok());
    assert!(matches!(
        cmd.spawn(Some(Event::ExitCode)),
        Err(PersistentCommandError::MustNotRespawn(Event::ExitCode))
    ));
    assert!(matches!(
        cmd.spawn(Some(Event::ExitSignal)),
        Err(PersistentCommandError::MustNotRespawn(Event::ExitSignal))
    ));
    let mut sig = PersistentCommand::new("/bin/true", "").restart_on_signal(true);
    assert!(sig.spawn(Some(Event::ExitSignal)).is_ok());
    assert_eq!(sig.spawns(), 1);
}

#[test]
fn refusal_by_policy_comes_before_the_limit() {
    let mut cmd = PersistentCommand::new("/bin/true", "").spawn_limit(0);
    assert!(matches!(
        cmd.spawn(Some(Event::ExitCode)),
        Err(PersistentCommandError::MustNotRespawn(Event::ExitCode))
    ));
    assert!(matches!(cmd.spawn(None), Err(PersistentCommandError::SpawnLimitReached(0))));
    assert_eq!(cmd.spawns(), 0);
}

#[test]
fn launch_splits_arguments_on_whitespace() {
    let mut cmd = PersistentCommand::new("/usr/sbin/sshd", "  -D\t-e \n -p 22 ");
    let launch = cmd.spawn(None).unwrap();
    assert_eq!(launch.program, "/usr/sbin/sshd");
    assert_eq!(launch.args, vec!["-D", "-e", "-p", "22"]);
    let mut bare = PersistentCommand::new("/usr/sbin/haveged", "");
    assert!(bare.spawn(None).unwrap().args.is_empty());
}

#[test]
fn describe_joins_command_and_arguments() {
    assert_eq!(PersistentCommand::new("/bin/sleep", "5").describe(), "/bin/sleep 5");
}

#[test]
fn orphan_escalates_term_then_kill() {
    let s = OrphanState::Untouched(4242);
    let a = s.next_state(Ok(()), 10);
    assert_eq!(a, OrphanState::AskedToExit(4242));
    let k = a.next_state(Ok(()), 11);
    assert_eq!(k, OrphanState::ForciblyKilled { pid: 4242, sent_at: 11 });
    assert_eq!(k.next_state(Ok(()), 12), k);
    assert_eq!(k.next_state(Err(1), 12), k);
}

#[test]
fn orphan_send_failure_is_terminal() {
    let f = OrphanState::Untouched(7).next_state(Err(ESRCH), 1);
    assert_eq!(f, OrphanState::Failed { pid: 7, errno: ESRCH });
    assert_eq!(f.next_state(Ok(()), 2), f);
    let g = OrphanState::AskedToExit(8).next_state(Err(1), 1);
    assert_eq!(g, OrphanState::Failed { pid: 8, errno: 1 });
}

#[test]
fn advance_on_a_vanished_process_fails() {
    let f = OrphanState::Untouched(GHOST_A).advance(1);
    assert_eq!(f, OrphanState::Failed { pid: GHOST_A, errno: ESRCH });
    let g = OrphanState::AskedToExit(GHOST_A).advance(1);
    assert_eq!(g, OrphanState::Failed { pid: GHOST_A, errno: ESRCH });
    assert_eq!(f.advance(2), f);
}

#[test]
fn advance_never_signals_a_group_pid() {
    for p in [0, -1, -42] {
        assert_eq!(
            OrphanState::Untouched(p).advance(3),
            OrphanState::Failed { pid: p, errno: INVALID_PID_ERRNO }
        );
    }
    let k = OrphanState::ForciblyKilled { pid: 9, sent_at: 4 };
    assert_eq!(k.advance(100), k);
    assert_eq!(k.pid(), 9);
}

#[test]
fn parse_pid_reads_plain_decimals() {
    assert_eq!(parse_pid(b"42"), Some(42));
    assert_eq!(parse_pid(b"0"), Some(0));
    assert_eq!(parse_pid(b"2147483647"), Some(i32::MAX));
    assert_eq!(parse_pid(b"2147483648"), None);
    assert_eq!(parse_pid(b"99999999999999999999"), None);
    assert_eq!(parse_pid(b""), None);
    assert_eq!(parse_pid(b"self"), None);
    assert_eq!(parse_pid(b"4x"), None);
    assert_eq!(parse_pid(b"-1"), None);
}

#[test]
fn fields_are_split_on_whitespace() {
    let s = b"  51 (sh) S\t50\n12";
    assert_eq!(find_field(s, 0), Some((2, 4)));
    assert_eq!(find_field(s, 3), Some((12, 14)));
    assert_eq!(find_field(s, 4), Some((15, 17)));
    assert_eq!(find_field(s, 5), None);
    assert_eq!(find_field(b"", 0), None);
    assert_eq!(parent_pid(s), Some(50));
    assert_eq!(parent_pid(b"51 (sh) S"), None);
    assert_eq!(parent_pid(b"51 (sh) S x1"), None);
}

#[test]
fn unreadable_entries_are_skipped() {
    assert_eq!(read_entry(&entry(51, 50)), Some((51, 50)));
    assert_eq!(read_entry(&ProcEntry { name: b"51".to_vec(), stat: None }), None);
    assert_eq!(read_entry(&ProcEntry { name: b"self".to_vec(), stat: Some(b"1 (a) S 0".to_vec()) }), None);
    assert_eq!(read_entry(&ProcEntry { name: b"51".to_vec(), stat: Some(b"garbage".to_vec()) }), None);
}

#[test]
fn children_of_fifty_in_five_records() {
    let table = vec![entry(1, 0), entry(50, 1), entry(51, 50), entry(52, 50), entry(53, 1)];
    assert_eq!(list_children(50, &table), vec![51, 52]);
    assert_eq!(list_children(1, &table), vec![50, 53]);
}

#[test]
fn children_of_a_childless_process_is_empty() {
    let mut table = vec![entry(1, 0), entry(50, 1), entry(51, 50), entry(60, 60)];
    table.push(ProcEntry { name: b"70".to_vec(), stat: None });
    assert!(list_children(51, &table).is_empty());
    assert!(list_children(60, &table).is_empty());
    assert!(list_children(50, &Vec::new()).is_empty());
}

#[test]
fn wait_outcomes_classify() {
    let c = carcass_of(WaitOutcome::Exited { pid: 5, status: 0 }).unwrap();
    assert_eq!(c, exited(5, 0));
    assert_eq!(c.event(), Event::ExitSuccess);
    assert_eq!(carcass_of(WaitOutcome::Exited { pid: 5, status: 1 }).unwrap().event(), Event::ExitCode);
    let s = carcass_of(WaitOutcome::Signaled { pid: 6, signal: 9 }).unwrap();
    assert_eq!(s, Carcass { pid: 6, status: None, signal: Some(9) });
    assert_eq!(s.event(), Event::ExitSignal);
    assert_eq!(carcass_of(WaitOutcome::StillAlive), None);
    assert_eq!(carcass_of(WaitOutcome::Other), None);
    assert_eq!(carcass_of(WaitOutcome::Failed(10)), None);
}

#[test]
fn reap_without_children_finds_nothing() {
    assert_eq!(reap(), None);
}

#[test]
fn scan_reports_only_new_children() {
    let mut r = Reaper::for_pid(1);
    assert_eq!(r.new_children(&vec![entry(10, 1), entry(11, 1), entry(12, 10)]), vec![10, 11]);
    assert_eq!(r.new_children(&vec![entry(10, 1), entry(13, 1)]), vec![13]);
    assert_eq!(r.new_children(&vec![entry(10, 1), entry(13, 1)]), Vec::<i32>::new());
}

#[test]
fn marking_keeps_existing_records() {
    let mut r = Reaper::for_pid(1);
    r.mark_orphans(&[GHOST_A, 0], 1);
    assert_eq!(r.orphan_count(), 2);
    assert_eq!(r.orphan_state(GHOST_A), Some(OrphanState::Failed { pid: GHOST_A, errno: ESRCH }));
    r.mark_orphans(&[GHOST_A], 2);
    assert_eq!(r.orphan_count(), 2);
    assert_eq!(r.orphan_state(GHOST_A), Some(OrphanState::Failed { pid: GHOST_A, errno: ESRCH }));
    r.transition_orphans(3);
    assert_eq!(r.orphan_state(0), Some(OrphanState::Failed { pid: 0, errno: INVALID_PID_ERRNO }));
    r.forget_orphan(GHOST_A);
    r.forget_orphan(GHOST_A);
    assert_eq!(r.orphan_state(GHOST_A), None);
    assert_eq!(r.orphan_count(), 1);
}

#[test]
fn clean_exit_with_one_new_child_rekeys() {
    let mut r = Reaper::for_pid(1);
    r.new_children(&vec![entry(100, 1)]);
    let mut cmd = PersistentCommand::new("/usr/sbin/sshd", "").restart_on_success(true).spawn_limit(3);
    assert!(cmd.spawn(None).is_ok());
    r.register(100, cmd);
    let out = r.handle_carcass(&exited(100, 0), &vec![entry(101, 1)], 5);
    assert!(out.is_none());
    assert!(!r.is_supervised(100));
    assert!(r.is_supervised(101));
    assert_eq!(r.spawns_of(101), Some(1));
    assert_eq!(r.supervised_count(), 1);
    assert_eq!(r.orphan_count(), 0);
}

#[test]
fn clean_exit_with_several_new_children_follows_the_first() {
    let mut r = Reaper::for_pid(1);
    r.new_children(&vec![entry(100, 1)]);
    r.register(100, PersistentCommand::new("/bin/daemon", ""));
    let out = r.handle_carcass(&exited(100, 0), &vec![entry(105, 1), entry(103, 1)], 5);
    assert!(out.is_none());
    assert!(r.is_supervised(105));
    assert!(!r.is_supervised(103));
    assert_eq!(r.orphan_count(), 0);
}

#[test]
fn failed_exit_without_restart_drops_command_and_marks_children() {
    let mut r = Reaper::for_pid(1);
    r.new_children(&vec![entry(100, 1)]);
    let mut cmd = PersistentCommand::new("/usr/sbin/haveged", "").restart_on_error(false);
    assert!(cmd.spawn(None).is_ok());
    r.register(100, cmd);
    let out = r.handle_carcass(&exited(100, 1), &vec![entry(GHOST_A, 1), entry(GHOST_B, 1)], 7);
    let respawn = out.unwrap();
    assert!(matches!(respawn.outcome, Err(PersistentCommandError::MustNotRespawn(Event::ExitCode))));
    assert!(!r.is_supervised(100));
    assert_eq!(r.supervised_count(), 0);
    assert_eq!(r.orphan_count(), 2);
    for p in [GHOST_A, GHOST_B] {
        let st = r.orphan_state(p).unwrap();
        assert_ne!(st, OrphanState::Untouched(p));
        assert_eq!(st, OrphanState::Failed { pid: p, errno: ESRCH });
    }
}

#[test]
fn clean_exit_with_restart_launches_again() {
    let mut r = Reaper::for_pid(1);
    let mut cmd = PersistentCommand::new("/bin/worker", "-v").restart_on_success(true);
    assert!(cmd.spawn(None).is_ok());
    r.register(200, cmd);
    let respawn = r.handle_carcass(&exited(200, 0), &vec![], 1).unwrap();
    let launch = respawn.outcome.unwrap();
    assert_eq!(launch.program, "/bin/worker");
    assert_eq!(launch.args, vec!["-v"]);
    assert_eq!(respawn.command.spawns(), 2);
    assert!(!r.is_supervised(200));
    r.register(201, respawn.command);
    assert_eq!(r.spawns_of(201), Some(2));
}

#[test]
fn reaped_orphan_leaves_the_table_once() {
    let mut r = Reaper::for_pid(1);
    r.mark_orphans(&[GHOST_A], 1);
    let c = Carcass { pid: GHOST_A, status: None, signal: Some(9) };
    assert!(r.handle_carcass(&c, &vec![], 2).is_none());
    assert_eq!(r.orphan_state(GHOST_A), None);
    assert!(r.handle_carcass(&c, &vec![], 3).is_none());
    assert_eq!(r.orphan_state(GHOST_A), None);
    assert_eq!(r.orphan_count(), 0);
}

#[test]
fn signaled_command_with_limit_reached_is_dropped() {
    let mut r = Reaper::for_pid(1);
    let mut cmd = PersistentCommand::new("/bin/x", "").restart_on_signal(true).spawn_limit(1);
    assert!(cmd.spawn(None).is_ok());
    r.register(300, cmd);
    let c = Carcass { pid: 300, status: None, signal: Some(15) };
    let respawn = r.handle_carcass(&c, &vec![], 1).unwrap();
    assert!(matches!(respawn.outcome, Err(PersistentCommandError::SpawnLimitReached(1))));
    assert_eq!(r.supervised_count(), 0);
}

#[test]
fn due_signal_per_state() {
    assert_eq!(OrphanState::Untouched(4242).due_signal(), Some(OrphanSignal::Terminate));
    assert_eq!(OrphanState::AskedToExit(4242).due_signal(), Some(OrphanSignal::Kill));
    assert_eq!(OrphanState::ForciblyKilled { pid: 4242, sent_at: 1 }.due_signal(), None);
    assert_eq!(OrphanState::Failed { pid: 4242, errno: ESRCH }.due_signal(), None);
}
