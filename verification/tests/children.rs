//! Whole children, with the system's part played by the test: what a child writes is fed to its
//! stream, and what becomes of it is told to its handle.

use nix::unistd::Pid;
use spawn::handle::{Alive, Waiting};
use spawn::launch::ChildStep;
use spawn::spawn::{cond_pipe, Instruction};
use spawn::{
    Capability, Filter, Handle, Launch, Method, Mode, Pipes, Progress, Signal, SpawnWhich, Spawner,
    StdStream, WaitStatus,
};

/// Looks for a command where only `/usr/bin` holds it.
fn find(cmd: &str) -> Result<String, spawn::WhichError> {
    let mut search = SpawnWhich::search(cmd);
    loop {
        match search.step() {
            spawn::which::Step::Probe(file) => {
                let there = file == format!("/usr/bin/{cmd}");
                search = search.probed(there);
            }
            spawn::which::Step::ReadPath => {
                search = search.with_path(Some(b"/usr/local/bin:/usr/bin".to_vec()));
            }
            spawn::which::Step::Done(res) => return res,
        }
    }
}

fn spawner(cmd: &str) -> Spawner {
    Spawner::new(cmd, find(cmd)).unwrap()
}

/// Opens pipes under made-up numbers, where they are needed.
fn pipes(spawner: &Spawner) -> Pipes {
    let mut next: i32 = 10;
    let mut open = |stream: StdStream| {
        if cond_pipe(&spawner.stream_mode(stream)) {
            next += 2;
            Some((next, next + 1))
        } else {
            None
        }
    };
    let output = open(StdStream::Output);
    let error = open(StdStream::Error);
    let input = open(StdStream::Input);
    Pipes { input, output, error }
}

fn launch(spawner: Spawner, vars: &[(Vec<u8>, Vec<u8>)]) -> Launch {
    let pipes = pipes(&spawner);
    spawner.spawn(pipes, vars).unwrap()
}

fn start(launch: Launch) -> Handle {
    launch.handle(Pid::from_raw(4242), Mode::Existing)
}

/// Waits for a child that exits with this code.
fn wait(handle: &mut Handle, code: i32) -> i32 {
    let pid = Pid::from_raw(4242);
    let mut at = handle.wait();
    loop {
        at = match at {
            Waiting::Poll(_, _) => handle.wait_polled(at, Ok(WaitStatus::StillAlive)),
            Waiting::Listen(_, _) => handle.wait_listening(at, Ok(())),
            Waiting::Catch(_, _) => handle.wait_caught(at, Signal::SIGCHLD),
            Waiting::Reap(_, _) => handle.wait_reaped(at, Ok(WaitStatus::Exited(pid, code))),
            Waiting::Done(res) => return res.unwrap(),
        };
    }
}

/// What a child prints of its variable `USER`.
fn echo_user(launch: &Launch) -> Vec<u8> {
    let mut printed: Vec<u8> = Vec::new();
    for entry in &launch.envp {
        if let Some(value) = entry.strip_prefix(b"USER=") {
            printed.extend_from_slice(value);
        }
    }
    printed.push(b'\n');
    printed
}

/// Reads all that a child prints.
fn read_output(mut handle: Handle, printed: &[u8]) -> String {
    let stream = handle.output().unwrap();
    stream.feed(printed);
    stream.finish();
    stream.read_blocking(true).unwrap()
}

#[test]
fn bash() {
    let string = "Hello, World!";
    let launch = launch(
        spawner("bash")
            .args(&["-c", &format!("echo '{string}'")])
            .output(spawn::StreamMode::Pipe)
            .error(spawn::StreamMode::Pipe),
        &[],
    );
    assert_eq!(launch.program, "/usr/bin/bash");
    assert_eq!(launch.argv, ["/usr/bin/bash", "-c", "echo 'Hello, World!'"]);

    let mut handle = start(launch);
    assert_eq!(handle.name(), "bash");
    let stream = handle.output().unwrap();
    stream.feed(format!("{string}\n").as_bytes());
    stream.finish();
    let output = stream.read_blocking(true).unwrap();
    assert_eq!(output.trim(), string);
}

#[test]
fn cat() {
    let launch = launch(
        spawner("cat").input(spawn::StreamMode::Pipe).output(spawn::StreamMode::Pipe),
        &[],
    );
    assert_eq!(
        launch.child[..4],
        [
            ChildStep::Close(15),
            ChildStep::Install(StdStream::Input, 14),
            ChildStep::Close(12),
            ChildStep::Install(StdStream::Output, 13),
        ]
    );
    let mut handle = start(launch);

    let string = "Hello, World!";
    assert_eq!(handle.write().unwrap(), 15);
    handle.close().unwrap();
    assert!(handle.write().is_err());

    let stream = handle.output().unwrap();
    assert_eq!(stream.fd(), 12);
    stream.feed(string.as_bytes());
    stream.finish();
    let output = stream.read_blocking(true).unwrap();
    assert_eq!(output.trim(), string);
}

#[test]
fn read() {
    let string = "Hello!";
    let launch = launch(spawner("echo").arg(string).output(spawn::StreamMode::Pipe), &[]);
    assert_eq!(launch.argv, ["/usr/bin/echo", "Hello!"]);

    let mut handle = start(launch);
    let stream = handle.output().unwrap();
    assert!(matches!(stream.read_bytes(Some(string.len())), Progress::Pending));
    stream.feed(b"Hello!\n");
    let bytes = match stream.read_bytes(Some(string.len())) {
        Progress::Ready(bytes) => bytes.unwrap(),
        Progress::Pending => panic!("the bytes are there"),
    };
    let output = String::from_utf8_lossy(&bytes);
    assert_eq!(output.trim(), string);
}

#[test]
fn clear_env() {
    let vars = [(b"USER".to_vec(), b"somebody".to_vec())];
    let launch = launch(
        spawner("bash")
            .args(&["-c", "echo $USER"])
            .output(spawn::StreamMode::Pipe)
            .error(spawn::StreamMode::Pipe),
        &vars,
    );
    assert!(launch.envp.is_empty());
    let printed = echo_user(&launch);
    let output = read_output(start(launch), &printed);
    assert!(output.trim().is_empty());
}

#[test]
fn preserve_env() {
    let user = "Test";
    let launch = launch(
        spawner("bash")
            .args(&["-c", "echo $USER"])
            .env("USER", user)
            .output(spawn::StreamMode::Pipe)
            .error(spawn::StreamMode::Pipe),
        &[],
    );
    assert_eq!(launch.envp, [format!("USER={user}").into_bytes()]);
    let printed = echo_user(&launch);
    let output = read_output(start(launch), &printed);
    assert_eq!(output.trim(), user);
}

#[test]
fn change_dir() {
    let launch = launch(
        spawner("bash").args(&["-c", "echo Hello > test.txt"]).dir("/tmp"),
        &[],
    );
    assert_eq!(launch.dir.as_deref(), Some("/tmp"));
    assert!(launch.child.contains(&ChildStep::ChangeDir));
    let mut handle = start(launch);
    assert_eq!(wait(&mut handle, 0), 0);
}

#[test]
fn posix_spawn() {
    let mut handle = start(launch(Spawner::abs("/usr/bin/true"), &[]));
    assert!(handle.spawn_method() == Method::PosixSpawn);
    wait(&mut handle, 0);

    let mut handle = start(launch(Spawner::abs("/usr/bin/true").new_privileges(true), &[]));
    assert!(handle.spawn_method() == Method::ForkExec);
    wait(&mut handle, 0);

    let mut handle = start(launch(
        Spawner::abs("/usr/bin/true").cap(Capability::CAP_AUDIT_CONTROL),
        &[],
    ));
    assert!(handle.spawn_method() == Method::ForkExec);
    wait(&mut handle, 0);

    let mut handle = start(launch(Spawner::abs("/usr/bin/true").dir("/"), &[]));
    assert!(handle.spawn_method() == Method::ForkExec);
    wait(&mut handle, 0);

    let mut handle = start(launch(Spawner::abs("/usr/bin/true").fd(7), &[]));
    assert!(handle.spawn_method() == Method::ForkExec);
    wait(&mut handle, 0);

    let allow = Filter { program: vec![Instruction { code: 6, jt: 0, jf: 0, k: 0x7fff_0000 }] };
    let mut handle = start(launch(Spawner::abs("/usr/bin/true").seccomp(allow), &[]));
    assert!(handle.spawn_method() == Method::ForkExec);
    wait(&mut handle, 0);
}

#[test]
fn bench() {
    for _i in 0..100 {
        let mut handle = start(launch(Spawner::abs("/usr/bin/true"), &[]));
        assert_eq!(wait(&mut handle, 0), 0);
    }
    for _i in 0..100 {
        let mut handle = start(launch(Spawner::abs("/usr/bin/true").new_privileges(true), &[]));
        assert_eq!(wait(&mut handle, 0), 0);
        assert!(matches!(handle.alive(), Alive::Done(Ok(None))));
    }
}
