use nix::unistd::Pid;
use spawn::capability::{clear_capabilities, CapSet};
use spawn::launch::{failure, Call, ChildStep, ParentStep, Starting};
use spawn::spawn::FilterError;
use spawn::system::UserError;
use spawn::{
    Capability, Errno, Filter, Handle, Launch, Method, Mode, Pipes, Refused, Signal, SpawnError,
    Spawner, StdStream, StreamMode,
};

const NONE: Pipes = Pipes { input: None, output: None, error: None };

fn plain() -> Spawner {
    Spawner::abs("/usr/bin/true")
}

fn start(spawner: Spawner) -> Launch {
    spawner.spawn(NONE, &[]).unwrap()
}

fn sorted(mut list: Vec<Vec<u8>>) -> Vec<Vec<u8>> {
    list.sort();
    list
}

fn error<T>(res: Result<T, Refused>) -> SpawnError {
    match res {
        Ok(_) => panic!("it cannot go on"),
        Err(refused) => refused.error,
    }
}

fn handle(name: &str, raw: i32) -> Handle {
    Handle::new(
        name.to_owned(),
        Pid::from_raw(raw),
        Mode::Existing,
        Method::ForkExec,
        None,
        None,
        None,
        vec![],
    )
}

#[test]
fn arguments_stand_in_order() {
    let mut s = plain().arg("a").args(&["b", "c"]);
    s.arg_i("d");
    s.args_i(&["e"]);
    assert_eq!(start(s).argv, ["/usr/bin/true", "a", "b", "c", "d", "e"]);
}

#[test]
fn descriptor_and_argument_agree() {
    let s = plain().fd_arg("--file", 1204).fd(0).fds(&[7, 8]);
    assert_eq!(s.get_fds(), [1204, 0, 7, 8]);
    let launch = start(s);
    assert_eq!(launch.argv, ["/usr/bin/true", "--file", "1204"]);
    assert_eq!(launch.keep, [1204, 0, 7, 8]);
    assert_eq!(start(plain().fd_arg("x", i32::MIN)).argv[2], "-2147483648");
}

#[test]
fn elevated_program_is_run_by_another() {
    let launch = start(plain().elevate(true).arg("x"));
    assert_eq!(launch.program, "/usr/bin/pkexec");
    assert_eq!(launch.argv, ["/usr/bin/pkexec", "/usr/bin/true", "x"]);
}

#[test]
fn nul_in_an_argument_is_an_error() {
    match error(plain().args(&["fine", "\u{e9}a\0b\0", "\0"]).spawn(NONE, &[])) {
        SpawnError::Null(e) => {
            assert_eq!(e.position, 3);
            assert_eq!(e.bytes, "\u{e9}a\0b\0".as_bytes());
        }
        _ => panic!("the system cannot take it"),
    }
    assert!(matches!(error(Spawner::abs("a\0").spawn(NONE, &[])), SpawnError::Null(_)));
}

#[test]
fn name_is_the_command_unless_given() {
    let found = Spawner::new("true", Ok("/usr/bin/true".to_owned())).unwrap();
    assert_eq!(start(found).name, "true");
    assert_eq!(start(plain()).name, "/usr/bin/true");
    assert_eq!(start(plain().name("worker")).name, "worker");
}

#[test]
fn preserved_environment_yields_to_what_is_set() {
    let vars = [
        (b"A".to_vec(), b"1".to_vec()),
        (b"B".to_vec(), b"2".to_vec()),
        (b"A".to_vec(), b"3".to_vec()),
        (b"BAD".to_vec(), vec![0xff]),
        (vec![0xff], b"4".to_vec()),
    ];
    let s = plain().preserve_env(true).env("B", "mine").env("C", "5");
    let launch = s.spawn(NONE, &vars).unwrap();
    assert_eq!(
        sorted(launch.envp),
        [b"A=3".to_vec(), b"B=mine".to_vec(), b"BAD=\xff".to_vec(), b"C=5".to_vec(), b"\xff=4".to_vec()]
    );
}

#[test]
fn environment_that_is_not_preserved_is_not_passed() {
    let vars = [(b"A".to_vec(), b"1".to_vec())];
    let launch = plain().env("B", "\u{e9}").spawn(NONE, &vars).unwrap();
    assert_eq!(launch.envp, ["B=\u{e9}".as_bytes()]);
}

#[test]
fn variable_with_nul_is_an_error() {
    for (key, value) in [("A", "b\0c"), ("A\0", "b"), ("\0", "\0")] {
        let s = plain().env("C", "1").env(key, value);
        assert!(matches!(error(s.spawn(NONE, &[])), SpawnError::Environment));
        let s = plain().preserve_env(true).env(key, value);
        assert!(matches!(error(s.spawn(NONE, &[])), SpawnError::Environment));
    }
    let both = plain().env("A", "\0").arg("\0");
    assert!(matches!(error(both.spawn(NONE, &[])), SpawnError::Null(_)));
    assert_eq!(start(plain().env("C", "=3=")).envp, [b"C==3="]);
}

#[test]
fn directory_with_nul_is_an_error() {
    let mut s = plain().dir("/t\0");
    assert!(s.associate(handle("a", 1)).is_none());
    let refused = s.spawn(NONE, &[]).unwrap_err();
    assert!(matches!(refused.error, SpawnError::Null(e) if e.position == 2 && e.bytes == b"/t\0"));
    assert_eq!(refused.associated.len(), 1);
    let both = plain().dir("\0").env("A", "\0");
    assert!(matches!(error(both.spawn(NONE, &[])), SpawnError::Environment));
}

#[test]
fn refused_spawner_gives_its_associates_back() {
    let mut s = plain().env("A", "\0");
    assert!(s.associate(handle("a", 1)).is_none());
    let refused = s.spawn(NONE, &[]).unwrap_err();
    assert_eq!(refused.associated.len(), 1);
    assert_eq!(*refused.associated[0].pid(), Some(Pid::from_raw(1)));

    let mut s = plain().arg("\0");
    assert!(s.associate(handle("a", 1)).is_none());
    assert_eq!(s.spawn(NONE, &[]).unwrap_err().associated.len(), 1);

    let mut s = plain();
    assert!(s.associate(handle("a", 1)).is_none());
    assert_eq!(s.pass_env("A", None).unwrap_err().associated.len(), 1);

    let mut s = plain();
    assert!(s.associate(handle("a", 1)).is_none());
    assert_eq!(s.env_or("A", "\0", None).unwrap_err().associated.len(), 1);

    let mut s = plain();
    assert!(s.associate(handle("a", 1)).is_none());
    assert_eq!(s.into_associates().len(), 1);
}

#[test]
fn variable_is_passed_on() {
    let s = plain().pass_env("A", Some(b"1".to_vec())).unwrap();
    assert_eq!(start(s).envp, [b"A=1"]);
    assert!(matches!(error(plain().pass_env("A", None)), SpawnError::Environment));
    assert!(matches!(error(plain().pass_env("A", Some(vec![0xff]))), SpawnError::Environment));
    assert!(matches!(
        error(plain().pass_env("A\0", Some(b"1".to_vec()))),
        SpawnError::Environment
    ));
}

#[test]
fn variable_falls_back() {
    let s = plain().env_or("A", "0", Some(b"1".to_vec())).unwrap();
    let s = s.env_or("B", "0", None).unwrap();
    let s = s.env_or("C", "0", Some(vec![0xff])).unwrap();
    assert_eq!(sorted(start(s).envp), [b"A=1", b"B=0", b"C=0"]);
    assert!(matches!(error(plain().env_or("A", "\0", None)), SpawnError::Environment));
    assert!(matches!(error(plain().env_or("\0", "0", None)), SpawnError::Environment));
}

#[test]
fn passing_on_makes_no_difference_when_preserved() {
    let vars = [(b"A".to_vec(), b"1".to_vec()), (b"B".to_vec(), b"2".to_vec())];
    let with = plain().preserve_env(true).pass_env("A", Some(b"1".to_vec())).unwrap();
    let without = plain().preserve_env(true);
    assert_eq!(
        sorted(with.spawn(NONE, &vars).unwrap().envp),
        sorted(without.spawn(NONE, &vars).unwrap().envp)
    );
}

#[test]
fn trace_tells_what_runs() {
    assert_eq!(start(plain().arg("x")).trace(), "/usr/bin/true x");
    assert_eq!(start(plain().env("A", "1")).trace(), "A=1 /usr/bin/true");
    assert_eq!(
        start(plain().env("A", "1").preserve_env(true)).trace(),
        "[SYSTEM ENVIRONMENT] /usr/bin/true"
    );
}

#[test]
fn cache_restores_arguments() {
    let mut s = plain().arg("before");
    s.cache_start().unwrap();
    assert!(matches!(s.cache_start(), Err(SpawnError::Cache("Caching already started!"))));
    s.args_i(&["one", "", "two"]);
    let text = s.cache_contents().unwrap();
    assert_eq!(text, "one  two");
    s.cache_write(Ok(())).unwrap();
    assert!(matches!(s.cache_contents(), Err(SpawnError::Cache("Cache not started!"))));
    assert!(matches!(s.cache_write(Ok(())), Err(SpawnError::Cache("Cache not started!"))));
    assert!(s.cache_start().is_ok());

    let mut later = plain();
    later.cache_read(Ok(text)).unwrap();
    assert_eq!(start(later).argv, ["/usr/bin/true", "one", "", "two"]);
}

/// What a later run reads of these arguments.
fn cached(args: &[&str]) -> (String, Vec<String>) {
    let mut s = plain();
    s.cache_start().unwrap();
    s.args_i(args);
    let text = s.cache_contents().unwrap();
    let mut later = plain();
    later.cache_read(Ok(text.clone())).unwrap();
    (text, start(later).argv[1..].to_vec())
}

#[test]
fn cache_restores_any_arguments() {
    for (args, text) in [
        (vec!["a", "b"], "a b"),
        (vec![""], ""),
        (vec!["", ""], " "),
        (vec!["\\e", "\\", "x"], "\\e \\ x"),
        (vec!["\u{e9}\n", "--x=1"], "\u{e9}\n --x=1"),
        (vec![], "\u{1}"),
        (vec!["a b"], "\u{1}a\\ b"),
        (vec!["\\e", "", " "], "\u{1}\\\\e \\e \\ "),
        (vec!["\u{1}a"], "\u{1}\u{1}a"),
        (vec!["a", "\u{1}"], "a \u{1}"),
    ] {
        assert_eq!(cached(&args), (text.to_owned(), args.iter().map(|a| a.to_string()).collect()));
    }
}

#[test]
fn cache_that_fails_changes_nothing() {
    let failed = || std::io::Error::from(std::io::ErrorKind::NotFound);
    let mut s = plain();
    s.cache_start().unwrap();
    assert!(matches!(s.cache_write(Err(failed())), Err(SpawnError::Io(_))));
    assert!(s.cache_start().is_err());
    assert!(matches!(s.cache_read(Err(failed())), Err(SpawnError::Io(_))));
    assert!(matches!(s.cache_read(Ok("a b\0".to_owned())), Err(SpawnError::Null(_))));
    assert_eq!(start(s).argv, ["/usr/bin/true"]);
}

#[test]
fn cache_without_a_mark_is_taken_to_pieces() {
    let mut s = plain();
    s.cache_read(Ok("a  b\\ ".to_owned())).unwrap();
    s.cache_read(Ok("\\e".to_owned())).unwrap();
    s.cache_read(Ok(String::new())).unwrap();
    s.cache_read(Ok("\u{1}c\\".to_owned())).unwrap();
    assert_eq!(
        start(s).argv,
        ["/usr/bin/true", "a", "", "b\\", "", "\\e", "", "c\\"]
    );
}

#[test]
fn capabilities_are_lost_unless_kept() {
    assert_eq!(start(plain()).lose.len(), 41);
    let mut s = plain().cap(Capability::CAP_KILL).caps(&[Capability::CAP_CHOWN]);
    s.caps_i(&[Capability::CAP_BPF, Capability::CAP_KILL]);
    let mut lose = start(s).lose;
    lose.sort();
    let expected: Vec<u8> = (0u8..=40).filter(|c| ![0, 5, 39].contains(c)).collect();
    assert_eq!(lose, expected);
    assert_eq!(
        clear_capabilities(&lose, &[5, 6], &[0, 1], &[], &[39, 40]),
        [(CapSet::Ambient, 6), (CapSet::Effective, 1), (CapSet::Permitted, 40)]
    );
    assert_eq!(Capability::CAP_AUDIT_CONTROL.index(), 30);
    assert_eq!(Capability::CAP_CHECKPOINT_RESTORE.index(), 40);
}

#[test]
fn streams_are_connected() {
    let s = plain()
        .input(StreamMode::Discard)
        .output(StreamMode::Log(log::Level::Warn))
        .error(StreamMode::Fd(9));
    let launch = s.spawn(Pipes { input: None, output: Some((20, 21)), error: None }, &[]).unwrap();
    assert_eq!(
        launch.child,
        [
            ChildStep::InstallNull(StdStream::Input),
            ChildStep::Close(20),
            ChildStep::Install(StdStream::Output, 21),
            ChildStep::Install(StdStream::Error, 9),
            ChildStep::DeathSignal(Signal::SIGKILL),
            ChildStep::ClearCapabilities,
            ChildStep::NoNewPrivileges,
            ChildStep::CloseOthers,
        ]
    );
    assert_eq!(launch.parent.len(), 2);
    assert!(matches!(launch.parent[0], ParentStep::Close(StdStream::Output, 21)));
    assert!(matches!(launch.parent[1], ParentStep::Log(log::Level::Warn, 20)));
    assert_eq!(launch.stdout, None);
}

#[test]
fn child_is_confined_in_order() {
    let s = plain().mode(Mode::Real).dir("/").new_privileges(true).seccomp(Filter {
        program: vec![],
    });
    let launch = start(s);
    assert_eq!(
        launch.child,
        [
            ChildStep::DropUser(Mode::Real),
            ChildStep::DeathSignal(Signal::SIGKILL),
            ChildStep::ChangeDir,
            ChildStep::ClearCapabilities,
            ChildStep::CloseOthers,
            ChildStep::LoadFilter,
        ]
    );
    assert_eq!(launch.method, Method::ForkExec);
    assert_eq!(launch.handle(Pid::from_raw(5), Mode::Existing).mode(), Mode::Real);
}

#[test]
fn associates_go_with_the_handle() {
    let mut s = plain();
    assert!(s.associate(handle("a", 1)).is_none());
    assert!(s.associate(handle("b", 2)).is_none());
    assert_eq!(*s.associate(handle("a", 3)).unwrap().pid(), Some(Pid::from_raw(1)));
    assert!(s.get_associate("c").is_none());
    assert_eq!(*s.get_associate("a").unwrap().pid(), Some(Pid::from_raw(3)));
    let _ = s.get_associate("b").unwrap().detach();
    let mut handle = start(s).handle(Pid::from_raw(4), Mode::Effective);
    assert_eq!(handle.associates(), 2);
    assert_eq!(*handle.get_associate("a").unwrap().pid(), Some(Pid::from_raw(3)));
    assert_eq!(*handle.get_associate("b").unwrap().pid(), None);
    assert_eq!(handle.mode(), Mode::Effective);
}

#[test]
fn failures_say_what_failed() {
    let errno = Errno::Other(9);
    let child = Pid::from_raw(4);
    assert!(matches!(failure(Call::Pipe, errno), SpawnError::Errno(None, _, _)));
    assert!(matches!(failure(Call::Keep, errno), SpawnError::Errno(None, "fnctl fd", _)));
    assert!(matches!(failure(Call::Start, errno), SpawnError::Fork(Errno::Other(9))));
    for (stream, label) in [
        (StdStream::Input, "close input"),
        (StdStream::Output, "close error"),
        (StdStream::Error, "close output"),
    ] {
        assert!(matches!(
            failure(Call::Close(stream, child), errno),
            SpawnError::Errno(Some(_), l, _) if l == label
        ));
    }
}

#[test]
fn streams_are_shared_by_default() {
    assert!(matches!(StreamMode::default(), StreamMode::Share));
    assert!(matches!(plain().stream_mode(StdStream::Output), StreamMode::Share));
}

#[test]
fn other_descriptors_are_closed() {
    assert_eq!(start(plain()).close, [(3, i32::MAX)]);
    assert_eq!(start(plain().fds(&[7, 1, 3, 9, 8, 7])).close, [(4, 6), (10, i32::MAX)]);
    assert_eq!(start(plain().fds(&[i32::MAX, -1])).close, [(3, i32::MAX - 1)]);
}

#[test]
fn start_goes_in_order() {
    let s = plain().fds(&[7, 8]).output(StreamMode::Log(log::Level::Info)).seccomp(Filter {
        program: vec![],
    });
    let pipes = Pipes { input: None, output: Some((20, 21)), error: None };
    let launch = s.spawn(pipes, &[]).unwrap();
    let child = Pid::from_raw(5);
    let at = launch.begin();
    assert!(matches!(at, Starting::Keep(0)));
    let at = launch.kept(at, Ok(()));
    assert!(matches!(at, Starting::Keep(1)));
    let at = launch.kept(at, Ok(()));
    assert!(matches!(at, Starting::SetUpFilter));
    let at = launch.ran(at, Ok(child));
    assert!(matches!(at, Starting::SetUpFilter));
    let at = launch.set_up(at, Ok(()));
    assert!(matches!(at, Starting::Run));
    let at = launch.ran(at, Ok(child));
    assert!(matches!(at, Starting::Tend(p, 0) if p == child));
    let at = launch.tended(at, Ok(()));
    assert!(matches!(at, Starting::Tend(p, 1) if p == child));
    let at = launch.tended(at, Err(Errno::Other(11)));
    assert!(matches!(at, Starting::FindUser(p) if p == child));
    let at = launch.found(at, Ok(Mode::Real));
    assert!(matches!(at, Starting::Ready(p, Mode::Real) if p == child));
}

#[test]
fn start_ends_at_the_first_failure() {
    let errno = Errno::Other(9);
    let launch = start(plain().fd(7));
    let at = launch.kept(launch.begin(), Err(errno));
    assert!(matches!(at, Starting::Failed(SpawnError::Errno(None, "fnctl fd", _))));

    let launch = start(plain().seccomp(Filter { program: vec![] }));
    let at = launch.set_up(launch.begin(), Err(FilterError { errno }));
    assert!(matches!(at, Starting::Failed(SpawnError::Seccomp(e)) if e.errno == errno));

    let launch = start(plain());
    assert!(matches!(launch.begin(), Starting::Run));
    let at = launch.ran(launch.begin(), Err(errno));
    assert!(matches!(at, Starting::Failed(SpawnError::Fork(Errno::Other(9)))));
    let at = launch.ran(launch.begin(), Ok(Pid::from_raw(5)));
    let at = launch.found(at, Err(UserError { errno }));
    assert!(matches!(at, Starting::Failed(SpawnError::User(_))));

    let pipes = Pipes { input: Some((20, 21)), output: None, error: None };
    let launch = plain().input(StreamMode::Pipe).spawn(pipes, &[]).unwrap();
    let at = launch.ran(launch.begin(), Ok(Pid::from_raw(5)));
    let at = launch.tended(at, Err(errno));
    assert!(matches!(at, Starting::Failed(SpawnError::Errno(Some(_), "close input", _))));
}
