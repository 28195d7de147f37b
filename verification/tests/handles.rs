use nix::unistd::Pid;
use spawn::handle::{
    Alive, Ended, Going, GroupSending, Sending, Teardown, Terminating, Waiting, Warning,
};
use spawn::system::UserError;
use spawn::{Errno, Handle, HandleError, Method, Mode, Signal, WaitStatus};

fn pid(raw: i32) -> Pid {
    Pid::from_raw(raw)
}

fn named(name: &str, raw: i32, associates: Vec<Handle>) -> Handle {
    Handle::new(
        name.to_owned(),
        pid(raw),
        Mode::Real,
        Method::ForkExec,
        Some(5),
        Some(6),
        None,
        associates,
    )
}

fn handle() -> Handle {
    named("child", 100, vec![])
}

#[test]
fn new_handle_has_its_child() {
    let mut h = handle();
    assert_eq!(h.name(), "child");
    assert_eq!(*h.pid(), Some(pid(100)));
    assert_eq!(h.mode(), Mode::Real);
    assert_eq!(h.stdin(), Some(5));
    assert_eq!(h.associates(), 0);
    assert_eq!(h.output().unwrap().fd(), 6);
    assert!(matches!(h.error(), Err(HandleError::NoFile)));
}

#[test]
fn living_child_is_found_alive() {
    let mut h = handle();
    let at = h.alive();
    assert!(matches!(at, Alive::Poll(p) if p == pid(100)));
    let at = h.alive_polled(at, Ok(WaitStatus::Continued(pid(100))));
    assert!(matches!(at, Alive::Poll(p) if p == pid(100)));
    let at = h.alive_polled(at, Ok(WaitStatus::StillAlive));
    assert!(matches!(at, Alive::Done(Ok(Some(p))) if p == pid(100)));
    assert_eq!(*h.pid(), Some(pid(100)));
}

#[test]
fn dead_child_leaves_its_code() {
    for (status, code) in [
        (Ok(WaitStatus::Exited(pid(100), 7)), 7),
        (Ok(WaitStatus::Signaled(pid(100), Signal::SIGKILL, false)), -1),
        (Err(Errno::ECHILD), -1),
    ] {
        let mut h = handle();
        let at = h.alive();
        let at = h.alive_polled(at, status);
        assert!(matches!(at, Alive::Done(Ok(None))));
        assert_eq!(*h.pid(), None);
        assert!(matches!(h.wait_and(), Waiting::Done(Ok(c)) if c == code));
    }
}

#[test]
fn failed_look_is_an_error() {
    let mut h = handle();
    let at = h.alive();
    let at = h.alive_polled(at, Err(Errno::Other(22)));
    assert!(matches!(at, Alive::Done(Err(HandleError::Comm(Errno::Other(22))))));
    assert_eq!(*h.pid(), Some(pid(100)));
}

#[test]
fn wait_goes_through_signals() {
    let mut h = handle();
    let at = h.wait_and();
    let at = h.wait_polled(at, Ok(WaitStatus::StillAlive));
    assert!(matches!(at, Waiting::Listen(_, _)));
    let at = h.wait_listening(at, Ok(()));
    let at = h.wait_caught(at, Signal::SIGCHLD);
    assert!(matches!(at, Waiting::Reap(p, _) if p == pid(100)));
    let at = h.wait_reaped(at, Ok(WaitStatus::Exited(pid(100), 3)));
    assert!(matches!(at, Waiting::Done(Ok(3))));
    assert_eq!(*h.pid(), None);
    assert!(matches!(h.wait(), Waiting::Done(Ok(3))));
    assert!(matches!(h.wait_blocking(), Waiting::Done(Ok(3))));
    assert!(matches!(h.wait_timeout(), Waiting::Done(Ok(3))));
}

#[test]
fn wait_ends_on_a_signal_to_end() {
    let mut h = handle();
    let at = h.wait_and();
    let at = h.wait_polled(at, Ok(WaitStatus::StillAlive));
    let at = h.wait_listening(at, Ok(()));
    let at = h.wait_caught(at, Signal::SIGTERM);
    assert!(matches!(at, Waiting::Done(Err(HandleError::Signal))));
    assert_eq!(*h.pid(), Some(pid(100)));
}

#[test]
fn only_a_timed_wait_times_out() {
    let mut h = handle();
    let at = h.wait_timeout();
    let at = h.wait_polled(at, Ok(WaitStatus::StillAlive));
    let at = h.wait_listening(at, Ok(()));
    assert!(matches!(
        h.wait_caught(at, Signal::SIGALRM),
        Waiting::Done(Err(HandleError::Timeout))
    ));
    let at = h.wait_and();
    let at = h.wait_polled(at, Ok(WaitStatus::StillAlive));
    let at = h.wait_listening(at, Ok(()));
    assert!(matches!(h.wait_caught(at, Signal::SIGALRM), Waiting::Done(Err(HandleError::Signal))));
}

#[test]
fn wait_fails_where_signals_cannot_be_heard() {
    let mut h = handle();
    let at = h.wait_and();
    let at = h.wait_polled(at, Ok(WaitStatus::StillAlive));
    let at = h.wait_listening(at, Err(std::io::Error::from(std::io::ErrorKind::Other)));
    assert!(matches!(at, Waiting::Done(Err(HandleError::Io(_)))));
}

#[test]
fn killed_child_ends_the_wait() {
    let killed = Ok(WaitStatus::Signaled(pid(100), Signal::SIGKILL, false));
    let mut h = handle();
    let at = h.wait_and();
    let at = h.wait_polled(at, Ok(WaitStatus::StillAlive));
    let at = h.wait_listening(at, Ok(()));
    let at = h.wait_caught(at, Signal::SIGCHLD);
    let at = h.wait_reaped(at, killed);
    assert!(matches!(at, Waiting::Done(Ok(-1))));
    assert_eq!(*h.pid(), None);

    let mut h = handle();
    let at = h.wait_blocking();
    let at = h.wait_polled(at, Ok(WaitStatus::StillAlive));
    let at = h.wait_reaped(at, killed);
    assert!(matches!(at, Waiting::Reap(p, _) if p == pid(100)));
    assert_eq!(*h.pid(), None);
    let at = h.wait_reaped(at, Err(Errno::ECHILD));
    assert!(matches!(at, Waiting::Done(Err(HandleError::Comm(Errno::ECHILD)))));
}

#[test]
fn stopped_child_is_forgotten() {
    let stopped = Ok(WaitStatus::Stopped(pid(100), Signal::SIGSTOP));
    let mut h = handle();
    let at = h.wait_and();
    let at = h.wait_polled(at, Ok(WaitStatus::StillAlive));
    let at = h.wait_listening(at, Ok(()));
    let at = h.wait_caught(at, Signal::SIGCHLD);
    let at = h.wait_reaped(at, stopped);
    assert!(matches!(at, Waiting::Catch(_, _)));
    assert_eq!(*h.pid(), None);

    let mut h = handle();
    let at = h.wait_blocking();
    let at = h.wait_polled(at, Ok(WaitStatus::StillAlive));
    let at = h.wait_reaped(at, stopped);
    assert!(matches!(at, Waiting::Reap(_, _)));
    assert_eq!(*h.pid(), None);
}

#[test]
fn missing_child_ends_the_wait() {
    let mut h = handle();
    let at = h.wait_and();
    let at = h.wait_polled(at, Ok(WaitStatus::StillAlive));
    let at = h.wait_listening(at, Ok(()));
    let at = h.wait_caught(at, Signal::SIGCHLD);
    assert!(matches!(h.wait_reaped(at, Err(Errno::ECHILD)), Waiting::Done(Ok(-1))));

    let mut h = handle();
    let at = h.wait_blocking();
    let at = h.wait_polled(at, Ok(WaitStatus::StillAlive));
    let at = h.wait_reaped(at, Err(Errno::ECHILD));
    assert!(matches!(at, Waiting::Done(Err(HandleError::Comm(Errno::ECHILD)))));
}

#[test]
fn reply_out_of_turn_changes_nothing() {
    let mut h = handle();
    let at = h.wait_and();
    let at = h.wait_reaped(at, Ok(WaitStatus::Exited(pid(100), 9)));
    assert!(matches!(at, Waiting::Poll(p, _) if p == pid(100)));
    assert_eq!(*h.pid(), Some(pid(100)));
}

#[test]
fn signal_is_sent_to_a_living_child() {
    let mut h = handle();
    let at = h.signal(Signal::SIGUSR1);
    let at = h.signal_polled(at, Ok(WaitStatus::StillAlive));
    assert!(matches!(at, Sending::Kill(p, Signal::SIGUSR1, Mode::Real) if p == pid(100)));
    let at = h.signal_sent(at, Ok(Ok(())));
    assert!(matches!(at, Sending::Done(Ok(()))));
    assert_eq!(*h.pid(), Some(pid(100)));
}

#[test]
fn signal_to_a_missing_process_is_no_error() {
    let mut h = handle();
    let at = h.signal(Signal::SIGUSR1);
    let at = h.signal_polled(at, Ok(WaitStatus::StillAlive));
    let at = h.signal_sent(at, Ok(Err(Errno::ESRCH)));
    assert!(matches!(at, Sending::Done(Ok(()))));
    assert_eq!(*h.pid(), None);
    assert!(matches!(h.signal(Signal::SIGUSR1), Sending::Done(Ok(()))));
}

#[test]
fn signal_fails_as_the_system_says() {
    let mut h = handle();
    let at = h.signal(Signal::SIGUSR1);
    let at = h.signal_polled(at, Ok(WaitStatus::StillAlive));
    let at = h.signal_sent(at, Ok(Err(Errno::Other(1))));
    assert!(matches!(at, Sending::Done(Err(HandleError::Comm(Errno::Other(1))))));
    let at = h.signal(Signal::SIGUSR1);
    let at = h.signal_polled(at, Ok(WaitStatus::StillAlive));
    let at = h.signal_sent(at, Err(UserError { errno: Errno::Other(1) }));
    assert!(matches!(at, Sending::Done(Err(HandleError::User(_)))));
}

#[test]
fn group_signal_reaches_all_associates() {
    let mut gone = named("gone", 201, vec![]);
    let _ = gone.detach();
    let mut h = named(
        "child",
        100,
        vec![named("one", 200, vec![]), gone, named("two", 202, vec![])],
    );
    let at = h.signal_group(Signal::SIGHUP);
    assert!(matches!(at, GroupSending::Own(Signal::SIGHUP, Sending::Poll(_, _))));
    let at = h.signal_group_polled(at, Ok(WaitStatus::StillAlive));
    assert!(matches!(at, GroupSending::Own(_, Sending::Kill(p, _, _)) if p == pid(100)));
    let at = h.signal_group_sent(at, Ok(Ok(())));
    assert!(matches!(at, GroupSending::Associate(0, _, Sending::Poll(p, _)) if p == pid(200)));
    let at = h.signal_group_polled(at, Ok(WaitStatus::Exited(pid(200), 4)));
    assert!(matches!(at, GroupSending::Associate(2, _, Sending::Poll(p, _)) if p == pid(202)));
    assert_eq!(*h.get_associate("one").unwrap().pid(), None);
    let at = h.signal_group_polled(at, Ok(WaitStatus::StillAlive));
    assert!(matches!(
        at,
        GroupSending::Associate(2, _, Sending::Kill(p, Signal::SIGHUP, Mode::Real)) if p == pid(202)
    ));
    let at = h.signal_group_sent(at, Ok(Ok(())));
    assert!(matches!(at, GroupSending::Done(Ok(()))));
}

#[test]
fn group_signal_stops_at_an_error() {
    let mut h = named("child", 100, vec![named("one", 200, vec![])]);
    let at = h.signal_group(Signal::SIGHUP);
    let at = h.signal_group_polled(at, Ok(WaitStatus::StillAlive));
    let at = h.signal_group_sent(at, Ok(Err(Errno::Other(1))));
    assert!(matches!(at, GroupSending::Done(Err(HandleError::Comm(Errno::Other(1))))));
}

#[test]
fn termination_asks_waits_and_tells() {
    let mut h = handle();
    let at = h.terminate();
    let at = h.terminate_polled(at, Ok(WaitStatus::StillAlive));
    assert!(matches!(at, Terminating::Repoll(_)));
    let at = h.terminate_polled(at, Ok(WaitStatus::StillAlive));
    assert!(matches!(at, Terminating::Kill(p, Signal::SIGTERM, Mode::Real) if p == pid(100)));
    let at = h.terminate_sent(at, Ok(Ok(())));
    assert!(matches!(at, Terminating::Reap(_)));
    match h.terminate_reaped(at, Ok(WaitStatus::Exited(pid(100), 0))) {
        Terminating::Done(ended) => assert!(ended.result().is_ok()),
        _ => panic!("it is over"),
    }
}

#[test]
fn handle_that_goes_warns_of_what_failed() {
    assert!(Ended::Absent.warning().is_none());
    assert!(matches!(
        Ended::Unreachable(HandleError::Comm(Errno::Other(1))).warning(),
        Some(Warning::Unreachable)
    ));
    assert!(matches!(
        Ended::Unsent(pid(1), HandleError::Comm(Errno::Other(1))).warning(),
        Some(Warning::Terminate(_, _))
    ));
    assert!(matches!(
        Ended::Reaped(pid(1), Err(Errno::ECHILD)).warning(),
        Some(Warning::Wait(_, Errno::ECHILD))
    ));
    assert!(Ended::Reaped(pid(1), Ok(WaitStatus::StillAlive)).warning().is_none());
    assert!(Ended::Reaped(pid(1), Err(Errno::ECHILD)).result().is_ok());
    assert!(Ended::Unsent(pid(1), HandleError::Child).result().is_err());
}

/// Lets a teardown run where these children are alive, and notes what it asks for.
fn run(teardown: &mut Teardown, alive: &[i32]) -> Vec<String> {
    let mut asked: Vec<String> = Vec::new();
    loop {
        match teardown.going() {
            Going::Poll(p) => {
                asked.push(format!("poll {p}"));
                let status = if alive.contains(&p.as_raw()) {
                    WaitStatus::StillAlive
                } else {
                    WaitStatus::Exited(p, 0)
                };
                assert!(teardown.polled(Ok(status)).is_none());
            }
            Going::Kill(p, signal, mode) => {
                assert_eq!((signal, mode), (Signal::SIGTERM, Mode::Real));
                asked.push(format!("kill {p}"));
                assert!(teardown.sent(Ok(Ok(()))).is_none());
            }
            Going::Reap(p) => {
                asked.push(format!("reap {p}"));
                assert!(teardown.reaped(Ok(WaitStatus::Exited(p, 0))).is_none());
            }
            Going::Over => return asked,
        }
    }
}

#[test]
fn handle_that_goes_ends_all_that_go_with_it() {
    let mut detached = named("detached", 300, vec![named("deep", 301, vec![])]);
    let _ = detached.detach();
    let h = named("child", 100, vec![named("one", 200, vec![]), detached, named("two", 400, vec![])]);
    let asked = run(&mut h.go(), &[100, 301, 400]);
    assert_eq!(
        asked,
        [
            "poll 100", "poll 100", "kill 100", "reap 100", "poll 200", "poll 301", "poll 301",
            "kill 301", "reap 301", "poll 400", "poll 400", "kill 400", "reap 400",
        ]
    );
}

#[test]
fn failure_does_not_stop_a_teardown() {
    let h = named("child", 100, vec![named("one", 200, vec![]), named("two", 300, vec![])]);
    let mut teardown = h.go();
    assert!(matches!(teardown.polled(Err(Errno::Other(1))), Some(Warning::Unreachable)));
    assert!(matches!(teardown.going(), Going::Poll(p) if p == pid(200)));
    assert!(teardown.polled(Ok(WaitStatus::StillAlive)).is_none());
    assert!(teardown.polled(Ok(WaitStatus::StillAlive)).is_none());
    assert!(matches!(
        teardown.sent(Ok(Err(Errno::Other(1)))),
        Some(Warning::Terminate(p, HandleError::Comm(Errno::Other(1)))) if p == pid(200)
    ));
    assert!(matches!(teardown.going(), Going::Poll(p) if p == pid(300)));
    assert!(teardown.polled(Ok(WaitStatus::StillAlive)).is_none());
    assert!(teardown.polled(Ok(WaitStatus::StillAlive)).is_none());
    assert!(teardown.sent(Ok(Ok(()))).is_none());
    assert!(matches!(teardown.reaped(Err(Errno::ECHILD)), Some(Warning::Wait(_, Errno::ECHILD))));
    assert!(matches!(teardown.going(), Going::Over));
    assert!(teardown.polled(Ok(WaitStatus::StillAlive)).is_none());
}

#[test]
fn detached_child_is_left_alone() {
    let mut h = handle();
    assert_eq!(h.detach(), Some(pid(100)));
    assert_eq!(h.detach(), None);
    assert!(matches!(h.terminate(), Terminating::Done(Ended::Absent)));
}

#[test]
fn associates_are_found_by_name() {
    let mut h = named("child", 100, vec![named("a", 200, vec![]), named("a", 201, vec![])]);
    assert_eq!(*h.get_associate("a").unwrap().pid(), Some(pid(200)));
    assert!(h.get_associate("b").is_none());
    let _ = h.get_associate("a").unwrap().detach();
    assert_eq!(*h.get_associate("a").unwrap().pid(), None);
}

#[test]
fn all_output_comes_after_the_wait() {
    let mut h = handle();
    h.output().unwrap().feed(b"Hello, ");
    assert_eq!(h.output_all(Ok(0), b"World!\n", true).unwrap(), "Hello, World!\n");
    assert!(matches!(h.output_all(Ok(0), b"", true), Err(HandleError::NoFile)));
    assert_eq!(*h.pid(), Some(pid(100)));
    assert!(matches!(handle().error_all(Ok(0), b"", true), Err(HandleError::NoFile)));
    assert!(matches!(handle().output_all(Ok(0), b"", false), Err(HandleError::Child)));
    assert!(matches!(
        handle().output_all(Err(HandleError::Comm(Errno::ECHILD)), b"", true),
        Err(HandleError::Comm(Errno::ECHILD))
    ));
}

#[test]
fn input_is_closed_once() {
    let mut h = handle();
    assert_eq!(h.write().unwrap(), 5);
    assert!(h.close().is_ok());
    assert!(matches!(h.write(), Err(HandleError::Input)));
    assert!(matches!(h.close(), Err(HandleError::NoFile)));
}
