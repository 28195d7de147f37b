//! The start of a child: everything that is to be done for it, worked out before it is forked,
//! since little can be done safely after that.

use crate::capability::is_difference;
use crate::handle::{opened, Handle, NO_CODE};
use crate::spawn::{opt_text, Config, Error, Filter, FilterError, StreamMode};
use crate::store::{byte_runs, is_environment, lists_handles};
use crate::system::{Errno, ForkResult, Method, Mode, Signal, StdStream, UserError};
use crate::text::{from_utf8_lossy, join, joined, lossy, texts};
use nix::unistd::Pid;
use vstd::prelude::*;
use vstd::utf8::*;

verus! {

/// The standard streams are the descriptors from zero up to this one.
pub const LAST_STREAM: i32 = 2;

/// The two ends of a pipe: that to read from, and that to write to.
pub type Ends = (i32, i32);

/// The pipes that were opened for the standard streams of a child.
#[derive(Clone, Copy, Debug, PartialEq, Eq)]
pub struct Pipes {
    /// That of standard input.
    pub input: Option<Ends>,
    /// That of standard output.
    pub output: Option<Ends>,
    /// That of standard error.
    pub error: Option<Ends>,
}

/// Something to be done in the child before its program runs.
#[derive(Clone, Copy, Debug, PartialEq, Eq, Structural)]
pub enum ChildStep {
    /// Close a descriptor.
    Close(i32),
    /// Make a descriptor a standard stream.
    Install(StdStream, i32),
    /// Make a standard stream lead nowhere.
    InstallNull(StdStream),
    /// Have the child sent this signal when its parent dies.
    DeathSignal(Signal),
    /// Drop privilege to these users.
    DropUser(Mode),
    /// Go to [`Launch::dir`].
    ChangeDir,
    /// Drop the capabilities of [`Launch::lose`].
    ClearCapabilities,
    /// Keep the child from new privileges.
    NoNewPrivileges,
    /// Close the descriptors of [`Launch::close`].
    CloseOthers,
    /// Load [`Launch::filter`].
    LoadFilter,
}

/// Something to be done in the parent once the child runs.
#[derive(Clone, Copy, Debug)]
pub enum ParentStep {
    /// Close the child's end of the pipe of a standard stream.
    Close(StdStream, i32),
    /// Log every line that can be read from a descriptor, under the child's name.
    Log(log::Level, i32),
}

/// A child about to be started.
#[derive(Debug)]
pub struct Launch {
    /// The program to run.
    pub program: String,
    /// Its arguments, with what it is called by first.
    pub argv: Vec<String>,
    /// Its environment.
    pub envp: Vec<Vec<u8>>,
    /// How to start it.
    pub method: Method,
    /// Descriptors that it is to inherit.
    pub keep: Vec<i32>,
    /// Descriptors that are to be closed to it, as ranges with both their ends: all but the
    /// standard streams and those that it is to inherit.
    pub close: Vec<(i32, i32)>,
    /// Capabilities that it is to lose, by their numbers.
    pub lose: Vec<u8>,
    /// The directory that it is to run in.
    pub dir: Option<String>,
    /// The filter that it is to be put under, which has to be set up before.
    pub filter: Option<Filter>,
    /// What is to be done in the child, in order.
    pub child: Vec<ChildStep>,
    /// What is to be done in the parent, in order.
    pub parent: Vec<ParentStep>,
    /// What it is called.
    pub name: String,
    /// The users that it runs as.
    pub mode: Option<Mode>,
    /// The end of its standard input that the handle has.
    pub stdin: Option<i32>,
    /// The end of its standard output that the handle has.
    pub stdout: Option<i32>,
    /// The end of its standard error that the handle has.
    pub stderr: Option<i32>,
    /// The handles that go with its own.
    pub associated: Vec<Handle>,
    /// Whether it is given the environment of this process.
    pub preserve_env: bool,
}

/// The program that elevates another.
pub open spec fn pkexec() -> Seq<char> {
    "/usr/bin/pkexec"@
}

impl Config {
    /// The program to run: the one that was asked for, unless another is to elevate it.
    pub open spec fn program(self) -> Seq<char> {
        if self.elevate {
            pkexec()
        } else {
            self.cmd
        }
    }

    /// The arguments of the program, with what it is called by first.
    pub open spec fn argv(self) -> Seq<Seq<char>> {
        if self.elevate {
            seq![pkexec(), self.cmd] + self.args
        } else {
            seq![self.cmd] + self.args
        }
    }

    /// The end of the pipe of a stream of output that the handle has: none where the stream is
    /// logged.
    pub open spec fn kept_end(mode: StreamMode, pipe: Option<Ends>) -> Option<i32> {
        match pipe {
            Some((read, _)) => if mode is Log {
                None
            } else {
                Some(read)
            },
            None => None,
        }
    }

    /// What is to be done in the child, in order.
    pub open spec fn child_steps(self, pipes: Pipes) -> Seq<ChildStep> {
        stream_steps(StdStream::Input, self.input, pipes.input) + stream_steps(
            StdStream::Output,
            self.output,
            pipes.output,
        ) + stream_steps(StdStream::Error, self.error, pipes.error) + confinement(
            self.mode,
            self.dir is Some,
            self.no_new_privileges,
            self.seccomp is Some,
        )
    }

    /// What is to be done in the parent, in order.
    pub open spec fn parent_steps(self, pipes: Pipes) -> Seq<ParentStep> {
        parent_stream_steps(StdStream::Input, self.input, pipes.input) + parent_stream_steps(
            StdStream::Output,
            self.output,
            pipes.output,
        ) + parent_stream_steps(StdStream::Error, self.error, pipes.error)
    }
}

/// What is to be done in the child once its streams are in place: its users, its death signal,
/// which a change of users would undo, its directory, its capabilities, its privileges, its
/// descriptors, and its filter last.
pub open spec fn confinement(
    mode: Option<Mode>,
    dir: bool,
    no_new_privileges: bool,
    filter: bool,
) -> Seq<ChildStep> {
    (match mode {
        Some(mode) => seq![ChildStep::DropUser(mode)],
        None => Seq::empty(),
    }) + seq![ChildStep::DeathSignal(Signal::SIGKILL)] + when(dir, ChildStep::ChangeDir) + seq![
        ChildStep::ClearCapabilities,
    ] + when(no_new_privileges, ChildStep::NoNewPrivileges) + seq![ChildStep::CloseOthers] + when(
        filter,
        ChildStep::LoadFilter,
    )
}

/// A step that may not be needed.
pub open spec fn when(needed: bool, step: ChildStep) -> Seq<ChildStep> {
    if needed {
        seq![step]
    } else {
        Seq::empty()
    }
}

/// The end of a pipe that the child uses: it reads its input, and writes its output.
pub open spec fn child_end(stream: StdStream, ends: Ends) -> i32 {
    if stream is Input {
        ends.0
    } else {
        ends.1
    }
}

/// The end of a pipe that the parent uses.
pub open spec fn parent_end(stream: StdStream, ends: Ends) -> i32 {
    if stream is Input {
        ends.1
    } else {
        ends.0
    }
}

/// What is to be done in the child for one of its standard streams.
pub open spec fn stream_steps(
    stream: StdStream,
    mode: StreamMode,
    pipe: Option<Ends>,
) -> Seq<ChildStep> {
    (match pipe {
        Some(ends) => seq![
            ChildStep::Close(parent_end(stream, ends)),
            ChildStep::Install(stream, child_end(stream, ends)),
        ],
        None => when(mode is Discard, ChildStep::InstallNull(stream)),
    }) + (match mode {
        StreamMode::Fd(fd) => seq![ChildStep::Install(stream, fd)],
        _ => Seq::empty(),
    })
}

/// What is to be done in the parent for one of the child's standard streams.
pub open spec fn parent_stream_steps(
    stream: StdStream,
    mode: StreamMode,
    pipe: Option<Ends>,
) -> Seq<ParentStep> {
    match pipe {
        None => Seq::empty(),
        Some(ends) => seq![ParentStep::Close(stream, child_end(stream, ends))] + (match mode {
            StreamMode::Log(level) => if stream is Input {
                Seq::empty()
            } else {
                seq![ParentStep::Log(level, parent_end(stream, ends))]
            },
            _ => Seq::empty(),
        }),
    }
}

/// A descriptor is in one of the ranges.
pub open spec fn in_ranges(ranges: Seq<(i32, i32)>, fd: i32) -> bool {
    exists|i: int| 0 <= i < ranges.len() && (#[trigger] ranges[i]).0 <= fd <= ranges[i].1
}

/// The ranges hold exactly the descriptors that a child is not to have: all but its standard
/// streams and those that it was given.
pub open spec fn closes_others(ranges: Seq<(i32, i32)>, keep: Seq<i32>) -> bool {
    forall|fd: i32| #[trigger] in_ranges(ranges, fd) <==> fd > LAST_STREAM && !keep.contains(fd)
}

/// The launch is the one that was asked for.
pub open spec fn is_launch(
    launch: Launch,
    config: Config,
    pipes: Pipes,
    vars: Seq<(Vec<u8>, Vec<u8>)>,
) -> bool {
    &&& launch.program@ == config.program()
    &&& texts(launch.argv@) == config.argv()
    &&& is_environment(byte_runs(launch.envp@), config.environment(vars))
    &&& launch.method == config.method()
    &&& launch.keep@ == config.fds
    &&& closes_others(launch.close@, config.fds)
    &&& is_difference(launch.lose@, config.whitelist)
    &&& opt_text(launch.dir) == config.dir
    &&& launch.filter == config.seccomp
    &&& launch.child@ == config.child_steps(pipes)
    &&& launch.parent@ == config.parent_steps(pipes)
    &&& launch.name@ == config.name()
    &&& launch.mode == config.mode
    &&& launch.stdin == (match pipes.input {
        Some((_, write)) => Some(write),
        None => None,
    })
    &&& launch.stdout == Config::kept_end(config.output, pipes.output)
    &&& launch.stderr == Config::kept_end(config.error, pipes.error)
    &&& lists_handles(launch.associated@, config.associated)
    &&& launch.preserve_env == config.preserve_env
}

/// The end of a pipe that the child uses.
fn end_in_child(stream: StdStream, ends: Ends) -> (fd: i32)
    ensures
        fd == child_end(stream, ends),
{
    match stream {
        StdStream::Input => ends.0,
        _ => ends.1,
    }
}

/// The end of a pipe that the parent uses.
fn end_in_parent(stream: StdStream, ends: Ends) -> (fd: i32)
    ensures
        fd == parent_end(stream, ends),
{
    match stream {
        StdStream::Input => ends.1,
        _ => ends.0,
    }
}

/// Adds what is to be done in the child for one of its standard streams.
pub(crate) fn push_stream_steps(
    steps: &mut Vec<ChildStep>,
    stream: StdStream,
    mode: StreamMode,
    pipe: Option<Ends>,
)
    ensures
        final(steps)@ == old(steps)@ + stream_steps(stream, mode, pipe),
{
    match pipe {
        Some(ends) => {
            steps.push(ChildStep::Close(end_in_parent(stream, ends)));
            steps.push(ChildStep::Install(stream, end_in_child(stream, ends)));
        },
        None => match mode {
            StreamMode::Discard => {
                steps.push(ChildStep::InstallNull(stream));
            },
            _ => {},
        },
    }
    match mode {
        StreamMode::Fd(fd) => {
            steps.push(ChildStep::Install(stream, fd));
        },
        _ => {},
    }
    assert(steps@ =~= old(steps)@ + stream_steps(stream, mode, pipe));
}

/// Adds what is to be done in the parent for one of the child's standard streams.
pub(crate) fn push_parent_steps(
    steps: &mut Vec<ParentStep>,
    stream: StdStream,
    mode: StreamMode,
    pipe: Option<Ends>,
)
    ensures
        final(steps)@ == old(steps)@ + parent_stream_steps(stream, mode, pipe),
{
    match pipe {
        None => {},
        Some(ends) => {
            steps.push(ParentStep::Close(stream, end_in_child(stream, ends)));
            match mode {
                StreamMode::Log(level) => match stream {
                    StdStream::Input => {},
                    _ => {
                        steps.push(ParentStep::Log(level, end_in_parent(stream, ends)));
                    },
                },
                _ => {},
            }
        },
    }
    assert(steps@ =~= old(steps)@ + parent_stream_steps(stream, mode, pipe));
}

/// Adds what is to be done in the child once its streams are in place.
pub(crate) fn push_confinement(
    steps: &mut Vec<ChildStep>,
    mode: Option<Mode>,
    dir: bool,
    no_new_privileges: bool,
    filter: bool,
)
    ensures
        final(steps)@ == old(steps)@ + confinement(mode, dir, no_new_privileges, filter),
{
    if let Some(mode) = mode {
        steps.push(ChildStep::DropUser(mode));
    }
    steps.push(ChildStep::DeathSignal(Signal::SIGKILL));
    if dir {
        steps.push(ChildStep::ChangeDir);
    }
    steps.push(ChildStep::ClearCapabilities);
    if no_new_privileges {
        steps.push(ChildStep::NoNewPrivileges);
    }
    steps.push(ChildStep::CloseOthers);
    if filter {
        steps.push(ChildStep::LoadFilter);
    }
    assert(steps@ =~= old(steps)@ + confinement(mode, dir, no_new_privileges, filter));
}

/// The end of the pipe of a stream of output that the handle has.
pub(crate) fn end_to_keep(mode: StreamMode, pipe: Option<Ends>) -> (fd: Option<i32>)
    ensures
        fd == Config::kept_end(mode, pipe),
{
    match pipe {
        Some((read, _)) => match mode {
            StreamMode::Log(_) => None,
            _ => Some(read),
        },
        None => None,
    }
}

/// The smallest descriptor of a list that is not below another.
fn next_kept(keep: &[i32], from: i32) -> (next: Option<i32>)
    ensures
        match next {
            Some(fd) => {
                &&& keep@.contains(fd)
                &&& from <= fd
                &&& forall|i: int|
                    0 <= i < keep@.len() && from <= #[trigger] keep@[i] ==> fd <= keep@[i]
            },
            None => forall|i: int| 0 <= i < keep@.len() ==> #[trigger] keep@[i] < from,
        },
{
    let mut next: Option<i32> = None;
    let mut i: usize = 0;
    while i < keep.len()
        invariant
            i <= keep@.len(),
            match next {
                Some(fd) => {
                    &&& keep@.contains(fd)
                    &&& from <= fd
                    &&& forall|j: int| 0 <= j < i && from <= #[trigger] keep@[j] ==> fd <= keep@[j]
                },
                None => forall|j: int| 0 <= j < i ==> #[trigger] keep@[j] < from,
            },
        decreases keep@.len() - i,
    {
        let fd: i32 = keep[i];
        assert(keep@.contains(keep@[i as int]));
        if from <= fd {
            match next {
                Some(least) => {
                    if fd < least {
                        next = Some(fd);
                    }
                },
                None => {
                    next = Some(fd);
                },
            }
        }
        i += 1;
    }
    next
}

/// The ranges hold, of the descriptors below a limit, those that a child is not to have.
spec fn closes_below(ranges: Seq<(i32, i32)>, keep: Seq<i32>, limit: int) -> bool {
    &&& forall|fd: i32| #[trigger]
        in_ranges(ranges, fd) <==> LAST_STREAM < fd < limit && !keep.contains(fd)
}

/// One more range holds what it adds.
proof fn lemma_one_more_range(ranges: Seq<(i32, i32)>, low: i32, high: i32, fd: i32)
    ensures
        in_ranges(ranges.push((low, high)), fd) <==> in_ranges(ranges, fd) || low <= fd <= high,
{
    let longer = ranges.push((low, high));
    if in_ranges(ranges, fd) {
        let i = choose|i: int| 0 <= i < ranges.len() && (#[trigger] ranges[i]).0 <= fd <= ranges[i].1;
        assert(longer[i].0 <= fd <= longer[i].1);
    }
    if low <= fd <= high {
        assert(longer[ranges.len() as int].0 <= fd <= longer[ranges.len() as int].1);
    }
    if in_ranges(longer, fd) {
        let i = choose|i: int| 0 <= i < longer.len() && (#[trigger] longer[i]).0 <= fd <= longer[i].1;
        if i < ranges.len() {
            assert(ranges[i].0 <= fd <= ranges[i].1);
        }
    }
}

/// The descriptors that a child is not to have, where it is given these.
pub(crate) fn close_ranges(keep: &[i32]) -> (ranges: Vec<(i32, i32)>)
    ensures
        closes_others(ranges@, keep@),
{
    let mut ranges: Vec<(i32, i32)> = Vec::new();
    let mut low: i32 = LAST_STREAM + 1;
    assert(closes_below(ranges@, keep@, low as int));
    loop
        invariant
            LAST_STREAM < low,
            closes_below(ranges@, keep@, low as int),
        decreases i32::MAX - low,
    {
        let ghost before = ranges@;
        match next_kept(keep, low) {
            None => {
                ranges.push((low, i32::MAX));
                proof {
                    assert forall|x: i32| #[trigger] in_ranges(ranges@, x) <==> LAST_STREAM < x
                        && !keep@.contains(x) by {
                        lemma_one_more_range(before, low, i32::MAX, x);
                        assert(in_ranges(before, x) <==> LAST_STREAM < x < low && !keep@.contains(
                            x,
                        ));
                    }
                }
                return ranges;
            },
            Some(fd) => {
                if low < fd {
                    ranges.push((low, fd - 1));
                }
                proof {
                    assert forall|x: i32| #[trigger] in_ranges(ranges@, x) <==> LAST_STREAM < x
                        < fd + 1 && !keep@.contains(x) by {
                        lemma_one_more_range(before, low, (fd - 1) as i32, x);
                        assert(in_ranges(before, x) <==> LAST_STREAM < x < low && !keep@.contains(
                            x,
                        ));
                    }
                }
                if fd == i32::MAX {
                    return ranges;
                }
                low = fd + 1;
            },
        }
    }
}

// ---------------------------------------------------------------------------
// What went wrong
// ---------------------------------------------------------------------------

/// A system call that the start of a child takes.
#[derive(Clone, Copy, Debug)]
pub enum Call {
    /// Opening a pipe.
    Pipe,
    /// Letting the child inherit a descriptor.
    Keep,
    /// Starting the child.
    Start,
    /// Closing, in the parent of this child, the child's end of the pipe of a standard stream.
    Close(StdStream, Pid),
}

/// The error when a system call failed.
pub open spec fn failed(call: Call, errno: Errno) -> Error {
    match call {
        Call::Pipe => Error::Errno(None, "open pipe", errno),
        Call::Keep => Error::Errno(None, "fnctl fd", errno),
        Call::Start => Error::Fork(errno),
        Call::Close(StdStream::Input, child) => Error::Errno(
            Some(ForkResult::Parent { child }),
            "close input",
            errno,
        ),
        Call::Close(StdStream::Output, child) => Error::Errno(
            Some(ForkResult::Parent { child }),
            "close error",
            errno,
        ),
        Call::Close(StdStream::Error, child) => Error::Errno(
            Some(ForkResult::Parent { child }),
            "close output",
            errno,
        ),
    }
}

/// The error when a system call failed.
pub fn failure(call: Call, errno: Errno) -> (error: Error)
    ensures
        error == failed(call, errno),
{
    match call {
        Call::Pipe => Error::Errno(None, "open pipe", errno),
        Call::Keep => Error::Errno(None, "fnctl fd", errno),
        Call::Start => Error::Fork(errno),
        Call::Close(stream, child) => {
            let fork = Some(ForkResult::Parent { child });
            match stream {
                StdStream::Input => Error::Errno(fork, "close input", errno),
                StdStream::Output => Error::Errno(fork, "close error", errno),
                StdStream::Error => Error::Errno(fork, "close output", errno),
            }
        },
    }
}

// ---------------------------------------------------------------------------
// The child runs
// ---------------------------------------------------------------------------

/// What is traced of a child with these arguments and this environment.
pub open spec fn traced(
    preserve_env: bool,
    envp: Seq<Seq<char>>,
    argv: Seq<Seq<char>>,
) -> Seq<char> {
    if preserve_env {
        "[SYSTEM ENVIRONMENT] "@ + joined(argv, ' ')
    } else if envp.len() > 0 {
        joined(envp, ' ').push(' ') + joined(argv, ' ')
    } else {
        joined(argv, ' ')
    }
}

/// Runs of bytes as the texts that stand for them.
pub open spec fn lossy_texts(runs: Seq<Seq<u8>>) -> Seq<Seq<char>> {
    Seq::new(runs.len(), |i: int| lossy(runs[i]))
}

/// The texts that stand for runs of bytes.
fn show_all(list: &[Vec<u8>]) -> (shown: Vec<String>)
    ensures
        texts(shown@) == lossy_texts(byte_runs(list@)),
        forall|i: int|
            0 <= i < list@.len() && valid_utf8((#[trigger] list@[i])@) ==> lossy(list@[i]@)
                == decode_utf8(list@[i]@),
{
    let mut shown: Vec<String> = Vec::new();
    let mut i: usize = 0;
    while i < list.len()
        invariant
            i <= list@.len(),
            texts(shown@) == lossy_texts(byte_runs(list@)).take(i as int),
            forall|j: int|
                0 <= j < i && valid_utf8((#[trigger] list@[j])@) ==> lossy(list@[j]@)
                    == decode_utf8(list@[j]@),
        decreases list@.len() - i,
    {
        let ghost before = texts(shown@);
        shown.push(from_utf8_lossy(list[i].as_slice()));
        assert(texts(shown@) =~= before.push(lossy(list@[i as int]@)));
        assert(texts(shown@) =~= lossy_texts(byte_runs(list@)).take(i + 1));
        i += 1;
    }
    assert(texts(shown@) =~= lossy_texts(byte_runs(list@)));
    shown
}

/// How far the start of a child has come, in the parent.
#[derive(Debug)]
pub enum Starting {
    /// Let the child inherit the descriptor at this place of [`Launch::keep`].
    Keep(usize),
    /// Set up [`Launch::filter`].
    SetUpFilter,
    /// Start the child by [`Launch::method`].
    Run,
    /// The child runs. Do what stands at this place of [`Launch::parent`].
    Tend(Pid, usize),
    /// The child runs. Find out what users this process acts as.
    FindUser(Pid),
    /// The child runs, and its handle can be had.
    Ready(Pid, Mode),
    /// The start failed.
    Failed(Error),
}

impl Launch {
    /// The descriptors from this place on are to be inherited, and then the child is started, with
    /// its filter set up before.
    pub open spec fn keep_from(self, i: int) -> Starting {
        if i < self.keep@.len() {
            Starting::Keep(i as usize)
        } else if self.filter is Some {
            Starting::SetUpFilter
        } else {
            Starting::Run
        }
    }

    /// The steps of the parent from this place on are to be taken.
    pub open spec fn tend_from(self, child: Pid, i: int) -> Starting {
        if i < self.parent@.len() {
            Starting::Tend(child, i as usize)
        } else {
            Starting::FindUser(child)
        }
    }

    /// A descriptor was to be inherited.
    pub open spec fn after_keep(self, at: Starting, res: Result<(), Errno>) -> Starting {
        match at {
            Starting::Keep(i) => if i >= self.keep@.len() {
                at
            } else {
                match res {
                    Ok(()) => self.keep_from(i + 1),
                    Err(e) => Starting::Failed(failed(Call::Keep, e)),
                }
            },
            _ => at,
        }
    }

    /// The filter was to be set up.
    pub open spec fn after_set_up(self, at: Starting, res: Result<(), FilterError>) -> Starting {
        match at {
            Starting::SetUpFilter => match res {
                Ok(()) => Starting::Run,
                Err(e) => Starting::Failed(Error::Seccomp(e)),
            },
            _ => at,
        }
    }

    /// The child was to be started.
    pub open spec fn after_run(self, at: Starting, res: Result<Pid, Errno>) -> Starting {
        match at {
            Starting::Run => match res {
                Ok(child) => self.tend_from(child, 0),
                Err(e) => Starting::Failed(failed(Call::Start, e)),
            },
            _ => at,
        }
    }

    /// A step of the parent was to be taken. A stream that cannot be logged is no failure.
    pub open spec fn after_tend(self, at: Starting, res: Result<(), Errno>) -> Starting {
        match at {
            Starting::Tend(child, i) => if i >= self.parent@.len() {
                at
            } else {
                match (self.parent@[i as int], res) {
                    (ParentStep::Close(stream, _), Err(e)) => Starting::Failed(
                        failed(Call::Close(stream, child), e),
                    ),
                    _ => self.tend_from(child, i + 1),
                }
            },
            _ => at,
        }
    }

    /// The users of this process were to be found out.
    pub open spec fn after_find(self, at: Starting, res: Result<Mode, UserError>) -> Starting {
        match at {
            Starting::FindUser(child) => match res {
                Ok(mode) => Starting::Ready(child, mode),
                Err(e) => Starting::Failed(Error::User(e)),
            },
            _ => at,
        }
    }

    /// What comes once the descriptors before this place are inherited.
    fn next_keep(&self, i: usize) -> (at: Starting)
        ensures
            at == self.keep_from(i as int),
    {
        if i < self.keep.len() {
            Starting::Keep(i)
        } else if self.filter.is_some() {
            Starting::SetUpFilter
        } else {
            Starting::Run
        }
    }

    /// What comes once the steps of the parent before this place are taken.
    fn next_tend(&self, child: Pid, i: usize) -> (at: Starting)
        ensures
            at == self.tend_from(child, i as int),
    {
        if i < self.parent.len() {
            Starting::Tend(child, i)
        } else {
            Starting::FindUser(child)
        }
    }

    /// Begins to start the child. Until it is done, the launch says what to do next, and is told
    /// what came of it.
    pub fn begin(&self) -> (at: Starting)
        ensures
            at == self.keep_from(0),
    {
        self.next_keep(0)
    }

    /// Goes on once a descriptor was to be inherited.
    ///
    /// ## Errors
    /// [`Error::Errno`] if it cannot be.
    pub fn kept(&self, at: Starting, res: Result<(), Errno>) -> (next: Starting)
        ensures
            next == self.after_keep(at, res),
    {
        match at {
            Starting::Keep(i) => if i >= self.keep.len() {
                Starting::Keep(i)
            } else {
                match res {
                    Ok(()) => self.next_keep(i + 1),
                    Err(e) => Starting::Failed(failure(Call::Keep, e)),
                }
            },
            other => other,
        }
    }

    /// Goes on once the filter was to be set up.
    ///
    /// ## Errors
    /// [`Error::Seccomp`] if it cannot be. The child is then not started.
    pub fn set_up(&self, at: Starting, res: Result<(), FilterError>) -> (next: Starting)
        ensures
            next == self.after_set_up(at, res),
    {
        match at {
            Starting::SetUpFilter => match res {
                Ok(()) => Starting::Run,
                Err(e) => Starting::Failed(Error::Seccomp(e)),
            },
            other => other,
        }
    }

    /// Goes on once the child was to be started.
    ///
    /// ## Errors
    /// [`Error::Fork`] if it cannot be.
    pub fn ran(&self, at: Starting, res: Result<Pid, Errno>) -> (next: Starting)
        ensures
            next == self.after_run(at, res),
    {
        match at {
            Starting::Run => match res {
                Ok(child) => self.next_tend(child, 0),
                Err(e) => Starting::Failed(failure(Call::Start, e)),
            },
            other => other,
        }
    }

    /// Goes on once a step of the parent was to be taken.
    ///
    /// ## Errors
    /// [`Error::Errno`] if a descriptor cannot be closed.
    pub fn tended(&self, at: Starting, res: Result<(), Errno>) -> (next: Starting)
        ensures
            next == self.after_tend(at, res),
    {
        match at {
            Starting::Tend(child, i) => if i >= self.parent.len() {
                Starting::Tend(child, i)
            } else {
                match (self.parent[i], res) {
                    (ParentStep::Close(stream, _), Err(e)) => Starting::Failed(
                        failure(Call::Close(stream, child), e),
                    ),
                    _ => self.next_tend(child, i + 1),
                }
            },
            other => other,
        }
    }

    /// Goes on once the users of this process were to be found out.
    ///
    /// ## Errors
    /// [`Error::User`] if they cannot be.
    pub fn found(&self, at: Starting, res: Result<Mode, UserError>) -> (next: Starting)
        ensures
            next == self.after_find(at, res),
    {
        match at {
            Starting::FindUser(child) => match res {
                Ok(mode) => Starting::Ready(child, mode),
                Err(e) => Starting::Failed(Error::User(e)),
            },
            other => other,
        }
    }

    /// A line that tells what is about to run.
    pub fn trace(&self) -> (line: String)
        ensures
            line@ == traced(
                self.preserve_env,
                lossy_texts(byte_runs(self.envp@)),
                texts(self.argv@),
            ),
            forall|i: int|
                0 <= i < self.envp@.len() && valid_utf8((#[trigger] self.envp@[i])@) ==> lossy(
                    self.envp@[i]@,
                ) == decode_utf8(self.envp@[i]@),
    {
        let command = join(self.argv.as_slice(), ' ');
        let shown = show_all(self.envp.as_slice());
        assert(texts(shown@).len() == shown@.len());
        if self.preserve_env {
            let mut line = "[SYSTEM ENVIRONMENT] ".to_owned();
            line.append(command.as_str());
            line
        } else if shown.len() > 0 {
            let mut line = join(shown.as_slice(), ' ');
            line.push(' ');
            line.append(command.as_str());
            line
        } else {
            command
        }
    }

    /// The handle to the child, now that it runs. `current` are the users that this process acts
    /// as, under which the child runs unless others were asked for.
    pub fn handle(self, child: Pid, current: Mode) -> (handle: Handle)
        ensures
            handle@.name == self.name@,
            handle@.child == Some(child),
            handle@.exit == NO_CODE,
            handle@.associated == self.associated@,
            handle@.stdin == self.stdin,
            opened(handle@.stdout, self.stdout),
            opened(handle@.stderr, self.stderr),
            handle@.mode == (match self.mode {
                Some(mode) => mode,
                None => current,
            }),
            handle@.method == self.method,
    {
        let mode = match self.mode {
            Some(mode) => mode,
            None => current,
        };
        Handle::new(
            self.name,
            child,
            mode,
            self.method,
            self.stdin,
            self.stdout,
            self.stderr,
            self.associated,
        )
    }
}

// ---------------------------------------------------------------------------
// What holds of every start
// ---------------------------------------------------------------------------

/// The filter is the last thing that is put in place, so that nothing else has to be permitted
/// by it but the start of the program.
pub proof fn law_filter_comes_last(config: Config, pipes: Pipes)
    requires
        config.seccomp is Some,
    ensures
        config.child_steps(pipes).last() == ChildStep::LoadFilter,
{
}

/// In every child, these steps are taken: the death signal is set, the capabilities that it is not
/// to keep are dropped, and the descriptors that it was not given are closed; it is kept from new
/// privileges unless they were allowed.
pub proof fn law_every_child_is_confined(config: Config, pipes: Pipes)
    ensures
        config.child_steps(pipes).contains(ChildStep::DeathSignal(Signal::SIGKILL)),
        config.child_steps(pipes).contains(ChildStep::ClearCapabilities),
        config.child_steps(pipes).contains(ChildStep::CloseOthers),
        config.no_new_privileges ==> config.child_steps(pipes).contains(
            ChildStep::NoNewPrivileges,
        ),
{
    let steps = config.child_steps(pipes);
    let rest = confinement(
        config.mode,
        config.dir is Some,
        config.no_new_privileges,
        config.seccomp is Some,
    );
    let n = steps.len() - rest.len();
    let user: int = if config.mode is Some {
        1
    } else {
        0
    };
    let dir: int = if config.dir is Some {
        1
    } else {
        0
    };
    let privileges: int = if config.no_new_privileges {
        1
    } else {
        0
    };
    assert(rest[user] == ChildStep::DeathSignal(Signal::SIGKILL));
    assert(steps[n + user] == rest[user]);
    assert(rest[1 + user + dir] == ChildStep::ClearCapabilities);
    assert(steps[n + 1 + user + dir] == rest[1 + user + dir]);
    if config.no_new_privileges {
        assert(rest[2 + user + dir] == ChildStep::NoNewPrivileges);
        assert(steps[n + 2 + user + dir] == rest[2 + user + dir]);
    }
    assert(rest[2 + user + dir + privileges] == ChildStep::CloseOthers);
    assert(steps[n + 2 + user + dir + privileges] == rest[2 + user + dir + privileges]);
}

/// No change of users comes after the death signal was set, which it would undo.
pub proof fn law_death_signal_outlasts_the_change_of_users(
    config: Config,
    pipes: Pipes,
    i: int,
    j: int,
)
    requires
        0 <= i < config.child_steps(pipes).len(),
        0 <= j < config.child_steps(pipes).len(),
        config.child_steps(pipes)[i] is DropUser,
        config.child_steps(pipes)[j] is DeathSignal,
    ensures
        i < j,
{
    let a = stream_steps(StdStream::Input, config.input, pipes.input);
    let b = stream_steps(StdStream::Output, config.output, pipes.output);
    let c = stream_steps(StdStream::Error, config.error, pipes.error);
    let rest = confinement(
        config.mode,
        config.dir is Some,
        config.no_new_privileges,
        config.seccomp is Some,
    );
    let n = (a.len() + b.len() + c.len()) as int;
    lemma_streams_come_first(a, b, c, rest, config, pipes, i);
    lemma_streams_come_first(a, b, c, rest, config, pipes, j);
    lemma_users_come_first(
        config.mode,
        config.dir is Some,
        config.no_new_privileges,
        config.seccomp is Some,
        i - n,
        j - n,
    );
}

/// What is done for a stream touches neither the users nor the death signal.
proof fn lemma_stream_steps(stream: StdStream, mode: StreamMode, pipe: Option<Ends>, k: int)
    requires
        0 <= k < stream_steps(stream, mode, pipe).len(),
    ensures
        !(stream_steps(stream, mode, pipe)[k] is DropUser),
        !(stream_steps(stream, mode, pipe)[k] is DeathSignal),
{
}

/// A step that touches the users or the death signal is one of the confinement.
proof fn lemma_streams_come_first(
    a: Seq<ChildStep>,
    b: Seq<ChildStep>,
    c: Seq<ChildStep>,
    rest: Seq<ChildStep>,
    config: Config,
    pipes: Pipes,
    k: int,
)
    requires
        a == stream_steps(StdStream::Input, config.input, pipes.input),
        b == stream_steps(StdStream::Output, config.output, pipes.output),
        c == stream_steps(StdStream::Error, config.error, pipes.error),
        0 <= k < (a + b + c + rest).len(),
        (a + b + c + rest)[k] is DropUser || (a + b + c + rest)[k] is DeathSignal,
    ensures
        k >= a.len() + b.len() + c.len(),
        (a + b + c + rest)[k] == rest[k - a.len() - b.len() - c.len()],
{
    if k < a.len() {
        assert((a + b + c + rest)[k] == a[k]);
        lemma_stream_steps(StdStream::Input, config.input, pipes.input, k);
    } else if k < a.len() + b.len() {
        assert((a + b + c + rest)[k] == b[k - a.len()]);
        lemma_stream_steps(StdStream::Output, config.output, pipes.output, k - a.len());
    } else if k < a.len() + b.len() + c.len() {
        assert((a + b + c + rest)[k] == c[k - a.len() - b.len()]);
        lemma_stream_steps(StdStream::Error, config.error, pipes.error, k - a.len() - b.len());
    }
}

/// The change of users comes before the death signal.
proof fn lemma_users_come_first(
    mode: Option<Mode>,
    dir: bool,
    no_new_privileges: bool,
    filter: bool,
    i: int,
    j: int,
)
    requires
        0 <= i < confinement(mode, dir, no_new_privileges, filter).len(),
        0 <= j < confinement(mode, dir, no_new_privileges, filter).len(),
        confinement(mode, dir, no_new_privileges, filter)[i] is DropUser,
        confinement(mode, dir, no_new_privileges, filter)[j] is DeathSignal,
    ensures
        i < j,
{
    let users = match mode {
        Some(mode) => seq![ChildStep::DropUser(mode)],
        None => Seq::empty(),
    };
    let a = users + seq![ChildStep::DeathSignal(Signal::SIGKILL)];
    let b = a + when(dir, ChildStep::ChangeDir);
    let c = b + seq![ChildStep::ClearCapabilities];
    let d = c + when(no_new_privileges, ChildStep::NoNewPrivileges);
    let e = d + seq![ChildStep::CloseOthers];
    let n = users.len() as int;
    assert(users_end(a, n));
    lemma_users_end(a, when(dir, ChildStep::ChangeDir), n);
    lemma_users_end(b, seq![ChildStep::ClearCapabilities], n);
    lemma_users_end(c, when(no_new_privileges, ChildStep::NoNewPrivileges), n);
    lemma_users_end(d, seq![ChildStep::CloseOthers], n);
    lemma_users_end(e, when(filter, ChildStep::LoadFilter), n);
    assert(users_end(confinement(mode, dir, no_new_privileges, filter), n));
}

/// The users are changed only before this place, and the death signal is not set before it.
spec fn users_end(steps: Seq<ChildStep>, n: int) -> bool {
    forall|k: int|
        0 <= k < steps.len() ==> ((#[trigger] steps[k]) is DropUser ==> k < n) && (steps[k]
            is DeathSignal ==> n <= k)
}

/// Steps that touch neither the users nor the death signal change nothing about that.
proof fn lemma_users_end(steps: Seq<ChildStep>, more: Seq<ChildStep>, n: int)
    requires
        users_end(steps, n),
        forall|k: int|
            0 <= k < more.len() ==> !((#[trigger] more[k]) is DropUser) && !(more[k]
                is DeathSignal),
    ensures
        users_end(steps + more, n),
{
    assert forall|k: int| 0 <= k < (steps + more).len() implies (((#[trigger] (steps + more)[k])
        is DropUser ==> k < n) && ((steps + more)[k] is DeathSignal ==> n <= k)) by {
        if k < steps.len() {
            assert((steps + more)[k] == steps[k]);
        } else {
            assert((steps + more)[k] == more[k - steps.len()]);
        }
    }
}

/// A reply from the system to a start.
pub enum StartReply {
    /// A descriptor was to be inherited.
    Kept(Result<(), Errno>),
    /// The filter was to be set up.
    SetUp(Result<(), FilterError>),
    /// The child was to be started.
    Ran(Result<Pid, Errno>),
    /// A step of the parent was to be taken.
    Tended(Result<(), Errno>),
    /// The users of this process were to be found out.
    Found(Result<Mode, UserError>),
}

/// How far a start has come after a reply.
pub open spec fn start_replied(launch: Launch, at: Starting, reply: StartReply) -> Starting {
    match reply {
        StartReply::Kept(res) => launch.after_keep(at, res),
        StartReply::SetUp(res) => launch.after_set_up(at, res),
        StartReply::Ran(res) => launch.after_run(at, res),
        StartReply::Tended(res) => launch.after_tend(at, res),
        StartReply::Found(res) => launch.after_find(at, res),
    }
}

/// How far a start has come after any number of replies, how often the filter was to be set up,
/// and how often the child was to be started.
pub open spec fn start_run(launch: Launch, replies: Seq<StartReply>) -> (Starting, nat, nat)
    decreases replies.len(),
{
    if replies.len() == 0 {
        (launch.keep_from(0), 0, 0)
    } else {
        let (at, set_ups, starts) = start_run(launch, replies.drop_last());
        let reply = replies.last();
        (
            start_replied(launch, at, reply),
            if at is SetUpFilter && reply is SetUp {
                set_ups + 1
            } else {
                set_ups
            },
            if at is Run && reply is Ran {
                starts + 1
            } else {
                starts
            },
        )
    }
}

/// However a start goes, the child is started at most once, and its filter, if it has one, was set
/// up before, exactly once. Where that fails, the child is not started.
pub proof fn law_filter_is_set_up_before_the_start(launch: Launch, replies: Seq<StartReply>)
    ensures
        ({
            let (at, set_ups, starts) = start_run(launch, replies);
            &&& starts <= 1
            &&& set_ups <= 1
            &&& launch.filter is None ==> set_ups == 0
            &&& launch.filter is Some && (at is Run || starts == 1) ==> set_ups == 1
            &&& at matches Starting::Failed(Error::Seccomp(_)) ==> starts == 0
            &&& at is Keep || at is SetUpFilter ==> set_ups == 0 && starts == 0
            &&& at is SetUpFilter ==> launch.filter is Some
            &&& at is Run ==> starts == 0
            &&& at is Tend || at is FindUser || at is Ready ==> starts == 1
        }),
    decreases replies.len(),
{
    if replies.len() > 0 {
        law_filter_is_set_up_before_the_start(launch, replies.drop_last());
    }
}

/// The two sides of a pipe end up with one end each: the child closes the parent's end and has
/// its own as the stream, and the parent closes the child's end and keeps the other.
pub proof fn law_pipe_joins_child_and_parent(stream: StdStream, mode: StreamMode, ends: Ends)
    requires
        !(mode is Fd),
    ensures
        stream_steps(stream, mode, Some(ends)) == seq![
            ChildStep::Close(parent_end(stream, ends)),
            ChildStep::Install(stream, child_end(stream, ends)),
        ],
        parent_stream_steps(stream, mode, Some(ends))[0] == ParentStep::Close(
            stream,
            child_end(stream, ends),
        ),
        !(stream is Input) && !(mode is Log) ==> Config::kept_end(mode, Some(ends)) == Some(
            parent_end(stream, ends),
        ),
        !(stream is Input) ==> (mode matches StreamMode::Log(level) ==> parent_stream_steps(
            stream,
            mode,
            Some(ends),
        )[1] == ParentStep::Log(level, parent_end(stream, ends))),
        parent_end(stream, ends) == ends.0 && child_end(stream, ends) == ends.1 || parent_end(
            stream,
            ends,
        ) == ends.1 && child_end(stream, ends) == ends.0,
{
    assert(stream_steps(stream, mode, Some(ends)) =~= seq![
        ChildStep::Close(parent_end(stream, ends)),
        ChildStep::Install(stream, child_end(stream, ends)),
    ]);
}

/// A stream that is shared is left as it is, on both sides.
pub proof fn law_shared_stream_is_left_alone(stream: StdStream)
    ensures
        stream_steps(stream, StreamMode::Share, None) == (Seq::<ChildStep>::empty()),
        parent_stream_steps(stream, StreamMode::Share, None) == (Seq::<ParentStep>::empty()),
{
    assert(stream_steps(stream, StreamMode::Share, None) =~= Seq::<ChildStep>::empty());
}

// ---------------------------------------------------------------------------
// What a child is given
// ---------------------------------------------------------------------------

/// For each of the three standard streams, what is done in the child is what its mode asks for: one
/// that is discarded leads nowhere, one that was given a descriptor is that descriptor, one that is
/// shared is left alone, and one that has a pipe is the child's end of it, with the other end
/// closed. The child reads its input and writes the others.
pub proof fn law_child_has_the_streams_it_was_given(
    stream: StdStream,
    fd: i32,
    level: log::Level,
    read: i32,
    write: i32,
)
    ensures
        stream_steps(stream, StreamMode::Discard, None) == seq![ChildStep::InstallNull(stream)],
        stream_steps(stream, StreamMode::Fd(fd), None) == seq![ChildStep::Install(stream, fd)],
        stream_steps(stream, StreamMode::Share, None).len() == 0,
        stream_steps(stream, StreamMode::Pipe, None).len() == 0,
        stream_steps(stream, StreamMode::Log(level), None).len() == 0,
        forall|mode: StreamMode|
            mode is Pipe || mode is Log ==> #[trigger] stream_steps(
                StdStream::Input,
                mode,
                Some((read, write)),
            ) == seq![ChildStep::Close(write), ChildStep::Install(StdStream::Input, read)],
        forall|mode: StreamMode|
            (mode is Pipe || mode is Log) && !(stream is Input) ==> #[trigger] stream_steps(
                stream,
                mode,
                Some((read, write)),
            ) == seq![ChildStep::Close(read), ChildStep::Install(stream, write)],
{
    assert(stream_steps(stream, StreamMode::Discard, None) =~= seq![
        ChildStep::InstallNull(stream),
    ]);
    assert(stream_steps(stream, StreamMode::Fd(fd), None) =~= seq![ChildStep::Install(stream, fd)]);
    assert forall|mode: StreamMode| mode is Pipe || mode is Log implies #[trigger] stream_steps(
        StdStream::Input,
        mode,
        Some((read, write)),
    ) == seq![ChildStep::Close(write), ChildStep::Install(StdStream::Input, read)] by {
        assert(stream_steps(StdStream::Input, mode, Some((read, write))) =~= seq![
            ChildStep::Close(write),
            ChildStep::Install(StdStream::Input, read),
        ]);
    }
    assert forall|mode: StreamMode|
        (mode is Pipe || mode is Log) && !(stream is Input) implies #[trigger] stream_steps(
        stream,
        mode,
        Some((read, write)),
    ) == seq![ChildStep::Close(read), ChildStep::Install(stream, write)] by {
        assert(stream_steps(stream, mode, Some((read, write))) =~= seq![
            ChildStep::Close(read),
            ChildStep::Install(stream, write),
        ]);
    }
}

/// The parent closes the end of a pipe that the child has, and logs what comes out of the other
/// where that is asked for. It does nothing for a stream without a pipe. The handle has the end to
/// read from, except of a stream that is logged.
pub proof fn law_parent_has_the_other_end(
    stream: StdStream,
    mode: StreamMode,
    level: log::Level,
    read: i32,
    write: i32,
)
    ensures
        parent_stream_steps(stream, mode, None).len() == 0,
        mode is Pipe || mode is Log ==> parent_stream_steps(
            StdStream::Input,
            mode,
            Some((read, write)),
        ) == seq![ParentStep::Close(StdStream::Input, read)],
        !(stream is Input) ==> parent_stream_steps(stream, StreamMode::Pipe, Some((read, write)))
            == seq![ParentStep::Close(stream, write)],
        !(stream is Input) ==> parent_stream_steps(
            stream,
            StreamMode::Log(level),
            Some((read, write)),
        ) == seq![ParentStep::Close(stream, write), ParentStep::Log(level, read)],
        !(mode is Log) ==> parent_stream_steps(stream, mode, Some((read, write))).len() == 1,
        !(mode is Log) ==> Config::kept_end(mode, Some((read, write))) == Some(read),
        Config::kept_end(StreamMode::Log(level), Some((read, write))) is None,
        Config::kept_end(mode, None) is None,
{
    assert(mode is Pipe || mode is Log ==> parent_stream_steps(
        StdStream::Input,
        mode,
        Some((read, write)),
    ) =~= seq![ParentStep::Close(StdStream::Input, read)]);
    assert(!(stream is Input) ==> parent_stream_steps(
        stream,
        StreamMode::Pipe,
        Some((read, write)),
    ) =~= seq![ParentStep::Close(stream, write)]);
    assert(!(stream is Input) ==> parent_stream_steps(
        stream,
        StreamMode::Log(level),
        Some((read, write)),
    ) =~= seq![ParentStep::Close(stream, write), ParentStep::Log(level, read)]);
}

/// The child's input is seen to first, then its output and its error, and then it is confined; the
/// parent sees to the streams in the same order, and each to the pipe of that stream.
pub proof fn law_streams_are_seen_to_in_turn(config: Config, pipes: Pipes)
    ensures
        ({
            let all = config.child_steps(pipes);
            let i = stream_steps(StdStream::Input, config.input, pipes.input);
            let o = stream_steps(StdStream::Output, config.output, pipes.output);
            let e = stream_steps(StdStream::Error, config.error, pipes.error);
            &&& all.take(i.len() as int) == i
            &&& all.subrange(i.len() as int, (i.len() + o.len()) as int) == o
            &&& all.subrange((i.len() + o.len()) as int, (i.len() + o.len() + e.len()) as int) == e
            &&& all.skip((i.len() + o.len() + e.len()) as int) == confinement(
                config.mode,
                config.dir is Some,
                config.no_new_privileges,
                config.seccomp is Some,
            )
        }),
        ({
            let all = config.parent_steps(pipes);
            let i = parent_stream_steps(StdStream::Input, config.input, pipes.input);
            let o = parent_stream_steps(StdStream::Output, config.output, pipes.output);
            let e = parent_stream_steps(StdStream::Error, config.error, pipes.error);
            &&& all.take(i.len() as int) == i
            &&& all.subrange(i.len() as int, (i.len() + o.len()) as int) == o
            &&& all.skip((i.len() + o.len()) as int) == e
        }),
{
    let i = stream_steps(StdStream::Input, config.input, pipes.input);
    let o = stream_steps(StdStream::Output, config.output, pipes.output);
    let e = stream_steps(StdStream::Error, config.error, pipes.error);
    let c = confinement(
        config.mode,
        config.dir is Some,
        config.no_new_privileges,
        config.seccomp is Some,
    );
    lemma_parts(i, o, e, c);
    let pi = parent_stream_steps(StdStream::Input, config.input, pipes.input);
    let po = parent_stream_steps(StdStream::Output, config.output, pipes.output);
    let pe = parent_stream_steps(StdStream::Error, config.error, pipes.error);
    let none = Seq::<ParentStep>::empty();
    lemma_parts(pi, po, pe, none);
    assert(pi + po + pe + none =~= pi + po + pe);
    assert((pi + po + pe).skip((pi.len() + po.len()) as int) =~= pe);
}

/// The parts of a whole stand one after the other.
proof fn lemma_parts<A>(a: Seq<A>, b: Seq<A>, c: Seq<A>, d: Seq<A>)
    ensures
        (a + b + c + d).take(a.len() as int) == a,
        (a + b + c + d).subrange(a.len() as int, (a.len() + b.len()) as int) == b,
        (a + b + c + d).subrange(
            (a.len() + b.len()) as int,
            (a.len() + b.len() + c.len()) as int,
        ) == c,
        (a + b + c + d).skip((a.len() + b.len() + c.len()) as int) == d,
{
    assert((a + b + c + d).take(a.len() as int) =~= a);
    assert((a + b + c + d).subrange(a.len() as int, (a.len() + b.len()) as int) =~= b);
    assert((a + b + c + d).subrange(
        (a.len() + b.len()) as int,
        (a.len() + b.len() + c.len()) as int,
    ) =~= c);
    assert((a + b + c + d).skip((a.len() + b.len() + c.len()) as int) =~= d);
}

/// The place of a step among those that confine a child.
pub open spec fn place(step: ChildStep) -> int {
    match step {
        ChildStep::DropUser(_) => 1,
        ChildStep::DeathSignal(_) => 2,
        ChildStep::ChangeDir => 3,
        ChildStep::ClearCapabilities => 4,
        ChildStep::NoNewPrivileges => 5,
        ChildStep::CloseOthers => 6,
        ChildStep::LoadFilter => 7,
        _ => 0,
    }
}

/// The steps stand in the order of their places, each once and all before this place.
spec fn in_place(steps: Seq<ChildStep>, limit: int) -> bool {
    &&& forall|i: int, j: int|
        0 <= i < j < steps.len() ==> place(#[trigger] steps[i]) < place(#[trigger] steps[j])
    &&& forall|i: int| 0 <= i < steps.len() ==> place(#[trigger] steps[i]) < limit
}

proof fn lemma_in_place(steps: Seq<ChildStep>, needed: bool, step: ChildStep)
    requires
        in_place(steps, place(step)),
    ensures
        in_place(steps + when(needed, step), place(step) + 1),
        forall|x: ChildStep| #[trigger]
            (steps + when(needed, step)).contains(x) <==> steps.contains(x) || (needed && x == step),
{
    let all = steps + when(needed, step);
    assert forall|i: int, j: int| 0 <= i < j < all.len() implies place(#[trigger] all[i]) < place(
        #[trigger] all[j],
    ) by {
        assert(all[i] == steps[i]);
        if j < steps.len() {
            assert(all[j] == steps[j]);
        }
    }
    assert forall|i: int| 0 <= i < all.len() implies place(#[trigger] all[i]) < place(step) + 1 by {
        if i < steps.len() {
            assert(all[i] == steps[i]);
        }
    }
    assert forall|x: ChildStep| #[trigger] all.contains(x) <==> steps.contains(x) || (needed && x
        == step) by {
        if steps.contains(x) {
            let i = choose|i: int| 0 <= i < steps.len() && steps[i] == x;
            assert(all[i] == x);
        }
        if needed && x == step {
            assert(all[steps.len() as int] == x);
        }
        if all.contains(x) {
            let i = choose|i: int| 0 <= i < all.len() && all[i] == x;
            if i < steps.len() {
                assert(steps[i] == x);
            }
        }
    }
}

/// A child is confined by exactly the steps that are asked for, each taken once: it drops to its
/// users exactly if it was given some, and then its death signal is set, it goes to its directory
/// exactly if it has one, drops its capabilities, is kept from new privileges exactly if they were
/// not allowed, closes what it was not given, and loads its filter exactly if it has one, in this
/// order.
pub proof fn law_child_is_confined_as_asked(
    mode: Option<Mode>,
    dir: bool,
    no_new_privileges: bool,
    filter: bool,
    step: ChildStep,
)
    ensures
        forall|i: int, j: int|
            0 <= i < j < confinement(mode, dir, no_new_privileges, filter).len() ==> place(
                #[trigger] confinement(mode, dir, no_new_privileges, filter)[i],
            ) < place(#[trigger] confinement(mode, dir, no_new_privileges, filter)[j]),
        confinement(mode, dir, no_new_privileges, filter).contains(step) <==> match step {
            ChildStep::DropUser(m) => mode == Some(m),
            ChildStep::DeathSignal(signal) => signal == Signal::SIGKILL,
            ChildStep::ChangeDir => dir,
            ChildStep::ClearCapabilities => true,
            ChildStep::NoNewPrivileges => no_new_privileges,
            ChildStep::CloseOthers => true,
            ChildStep::LoadFilter => filter,
            ChildStep::Close(_) => false,
            ChildStep::Install(_, _) => false,
            ChildStep::InstallNull(_) => false,
        },
{
    let death = ChildStep::DeathSignal(Signal::SIGKILL);
    let none = Seq::<ChildStep>::empty();
    let user = match mode {
        Some(mode) => seq![ChildStep::DropUser(mode)],
        None => Seq::empty(),
    };
    if let Some(m) = mode {
        lemma_in_place(none, true, ChildStep::DropUser(m));
        assert(none + when(true, ChildStep::DropUser(m)) =~= user);
    }
    assert(in_place(user, place(death)));
    lemma_in_place(user, true, death);
    let a = user + when(true, death);
    lemma_in_place(a, dir, ChildStep::ChangeDir);
    let b = a + when(dir, ChildStep::ChangeDir);
    lemma_in_place(b, true, ChildStep::ClearCapabilities);
    let c = b + when(true, ChildStep::ClearCapabilities);
    lemma_in_place(c, no_new_privileges, ChildStep::NoNewPrivileges);
    let d = c + when(no_new_privileges, ChildStep::NoNewPrivileges);
    lemma_in_place(d, true, ChildStep::CloseOthers);
    let e = d + when(true, ChildStep::CloseOthers);
    lemma_in_place(e, filter, ChildStep::LoadFilter);
    assert(e + when(filter, ChildStep::LoadFilter) == confinement(
        mode,
        dir,
        no_new_privileges,
        filter,
    ));
    assert((e + when(filter, ChildStep::LoadFilter)).contains(step) <==> user.contains(step) || step
        == death || (dir && step == ChildStep::ChangeDir) || step == ChildStep::ClearCapabilities
        || (no_new_privileges && step == ChildStep::NoNewPrivileges) || step
        == ChildStep::CloseOthers || (filter && step == ChildStep::LoadFilter)) by {
        assert(e.contains(step) <==> d.contains(step) || step == ChildStep::CloseOthers);
        assert(d.contains(step) <==> c.contains(step) || (no_new_privileges && step
            == ChildStep::NoNewPrivileges));
        assert(c.contains(step) <==> b.contains(step) || step == ChildStep::ClearCapabilities);
        assert(b.contains(step) <==> a.contains(step) || (dir && step == ChildStep::ChangeDir));
        assert(a.contains(step) <==> user.contains(step) || step == death);
    }
    match mode {
        Some(m) => {
            assert(user[0] == ChildStep::DropUser(m));
            assert(user.contains(ChildStep::DropUser(m)));
        },
        None => {},
    }
}

/// The program is the one that was asked for, called by its own path and followed by all its
/// arguments in order; an elevated one is what the elevating program is told to run.
pub proof fn law_program_has_its_arguments(config: Config, i: int)
    ensures
        !config.elevate ==> {
            &&& config.program() == config.cmd
            &&& config.argv().len() == config.args.len() + 1
            &&& config.argv()[0] == config.cmd
            &&& 0 <= i < config.args.len() ==> config.argv()[i + 1] == config.args[i]
        },
        config.elevate ==> {
            &&& config.program() == "/usr/bin/pkexec"@
            &&& config.argv().len() == config.args.len() + 2
            &&& config.argv()[0] == "/usr/bin/pkexec"@
            &&& config.argv()[1] == config.cmd
            &&& 0 <= i < config.args.len() ==> config.argv()[i + 2] == config.args[i]
        },
{
}

/// A child is left exactly its standard streams and the descriptors that it was given: every other
/// one lies in a range that is closed, and none of these does.
pub proof fn law_child_is_left_what_it_was_given(
    ranges: Seq<(i32, i32)>,
    keep: Seq<i32>,
    fd: i32,
)
    requires
        closes_others(ranges, keep),
    ensures
        (exists|i: int| 0 <= i < ranges.len() && (#[trigger] ranges[i]).0 <= fd <= ranges[i].1)
            <==> fd > 2 && !(exists|j: int| 0 <= j < keep.len() && #[trigger] keep[j] == fd),
{
    assert(in_ranges(ranges, fd) <==> fd > LAST_STREAM && !keep.contains(fd));
}

/// A launch is what was asked for in every part.
pub proof fn law_launch_is_what_was_asked_for(
    launch: Launch,
    config: Config,
    pipes: Pipes,
    vars: Seq<(Vec<u8>, Vec<u8>)>,
)
    requires
        is_launch(launch, config, pipes, vars),
    ensures
        launch.program@ == config.program(),
        launch.argv@.len() == config.argv().len(),
        forall|i: int| 0 <= i < launch.argv@.len() ==> (#[trigger] launch.argv@[i])@
            == config.argv()[i],
        is_environment(byte_runs(launch.envp@), config.environment(vars)),
        launch.method == config.method(),
        launch.keep@ == config.fds,
        closes_others(launch.close@, config.fds),
        is_difference(launch.lose@, config.whitelist),
        config.dir matches Some(dir) ==> launch.dir is Some && launch.dir->0@ == dir,
        config.dir is None ==> launch.dir is None,
        launch.filter == config.seccomp,
        launch.child@ == config.child_steps(pipes),
        launch.parent@ == config.parent_steps(pipes),
        launch.name@ == config.name(),
        launch.mode == config.mode,
        pipes.input matches Some(ends) ==> launch.stdin == Some(ends.1),
        pipes.input is None ==> launch.stdin is None,
        launch.stdout == Config::kept_end(config.output, pipes.output),
        launch.stderr == Config::kept_end(config.error, pipes.error),
        lists_handles(launch.associated@, config.associated),
        launch.preserve_env == config.preserve_env,
{
    assert forall|i: int| 0 <= i < launch.argv@.len() implies (#[trigger] launch.argv@[i])@
        == config.argv()[i] by {
        assert(texts(launch.argv@)[i] == config.argv()[i]);
    }
    assert(texts(launch.argv@).len() == launch.argv@.len());
}

/// An error says which call failed, on which side of the fork, and with what.
pub proof fn law_failure_says_what_failed(child: Pid, errno: Errno)
    ensures
        failed(Call::Pipe, errno) == Error::Errno(None, "open pipe", errno),
        failed(Call::Keep, errno) == Error::Errno(None, "fnctl fd", errno),
        failed(Call::Start, errno) == Error::Fork(errno),
        failed(Call::Close(StdStream::Input, child), errno) == Error::Errno(
            Some(ForkResult::Parent { child }),
            "close input",
            errno,
        ),
        failed(Call::Close(StdStream::Output, child), errno) == Error::Errno(
            Some(ForkResult::Parent { child }),
            "close error",
            errno,
        ),
        failed(Call::Close(StdStream::Error, child), errno) == Error::Errno(
            Some(ForkResult::Parent { child }),
            "close output",
            errno,
        ),
{
}

/// A trace ends in the whole command. Before it stands that the environment is that of this
/// process, or else the whole environment, if there is any.
pub proof fn law_trace_shows_the_command(envp: Seq<Seq<char>>, argv: Seq<Seq<char>>)
    ensures
        traced(true, envp, argv) == "[SYSTEM ENVIRONMENT] "@ + joined(argv, ' '),
        envp.len() > 0 ==> traced(false, envp, argv) == joined(envp, ' ') + seq![' '] + joined(
            argv,
            ' ',
        ),
        envp.len() == 0 ==> traced(false, envp, argv) == joined(argv, ' '),
{
    assert(envp.len() > 0 ==> traced(false, envp, argv) =~= joined(envp, ' ') + seq![' '] + joined(
        argv,
        ' ',
    ));
}

/// Runs of bytes are shown each as the text that stands for it.
pub proof fn law_runs_are_shown_as_their_texts(runs: Seq<Seq<u8>>, i: int)
    ensures
        lossy_texts(runs).len() == runs.len(),
        0 <= i < runs.len() ==> lossy_texts(runs)[i] == lossy(runs[i]),
{
}

/// All that a start asks of the system, where the system can do it all.
pub open spec fn start_asks(
    launch: Launch,
    at: Starting,
    child: Pid,
    mode: Mode,
    steps: nat,
) -> Seq<Starting>
    decreases steps,
{
    if steps == 0 {
        Seq::empty()
    } else {
        let left = (steps - 1) as nat;
        seq![at] + match at {
            Starting::Keep(_) => start_asks(
                launch,
                launch.after_keep(at, Ok(())),
                child,
                mode,
                left,
            ),
            Starting::SetUpFilter => start_asks(
                launch,
                launch.after_set_up(at, Ok(())),
                child,
                mode,
                left,
            ),
            Starting::Run => start_asks(
                launch,
                launch.after_run(at, Ok(child)),
                child,
                mode,
                left,
            ),
            Starting::Tend(_, _) => start_asks(
                launch,
                launch.after_tend(at, Ok(())),
                child,
                mode,
                left,
            ),
            Starting::FindUser(_) => start_asks(
                launch,
                launch.after_find(at, Ok(mode)),
                child,
                mode,
                left,
            ),
            _ => Seq::empty(),
        }
    }
}

/// Every descriptor from this place on is to be inherited.
pub open spec fn all_kept(launch: Launch, i: int) -> Seq<Starting> {
    Seq::new((launch.keep@.len() - i) as nat, |k: int| Starting::Keep((i + k) as usize))
}

/// Every step of the parent from this place on is to be taken.
pub open spec fn all_tended(launch: Launch, child: Pid, i: int) -> Seq<Starting> {
    Seq::new((launch.parent@.len() - i) as nat, |k: int| Starting::Tend(child, (i + k) as usize))
}

proof fn lemma_all_tended(launch: Launch, child: Pid, mode: Mode, i: int, steps: nat)
    requires
        0 <= i <= launch.parent@.len() <= usize::MAX,
        steps >= launch.parent@.len() - i + 2,
    ensures
        start_asks(launch, launch.tend_from(child, i), child, mode, steps) == all_tended(
            launch,
            child,
            i,
        ) + seq![Starting::FindUser(child), Starting::Ready(child, mode)],
    decreases launch.parent@.len() - i,
{
    let at = launch.tend_from(child, i);
    let end = seq![Starting::FindUser(child), Starting::Ready(child, mode)];
    if i == launch.parent@.len() {
        let ready = Starting::Ready(child, mode);
        assert(start_asks(launch, ready, child, mode, (steps - 1) as nat) =~= seq![ready]);
        assert(start_asks(launch, at, child, mode, steps) =~= seq![at] + seq![ready]);
        assert(all_tended(launch, child, i) + end =~= end);
        assert(seq![at] + seq![ready] =~= end);
    } else {
        lemma_all_tended(launch, child, mode, i + 1, (steps - 1) as nat);
        assert(launch.after_tend(at, Ok(())) == launch.tend_from(child, i + 1));
        assert(start_asks(launch, at, child, mode, steps) == seq![at] + start_asks(
            launch,
            launch.tend_from(child, i + 1),
            child,
            mode,
            (steps - 1) as nat,
        ));
        assert(all_tended(launch, child, i) =~= seq![at] + all_tended(launch, child, i + 1));
        assert(seq![at] + (all_tended(launch, child, i + 1) + end) =~= all_tended(launch, child, i)
            + end);
    }
}

proof fn lemma_all_kept(launch: Launch, child: Pid, mode: Mode, i: int, steps: nat)
    requires
        0 <= i <= launch.keep@.len() <= usize::MAX,
        launch.parent@.len() <= usize::MAX,
        steps >= launch.keep@.len() - i + launch.parent@.len() + 4,
    ensures
        start_asks(launch, launch.keep_from(i), child, mode, steps) == all_kept(launch, i) + (
        if launch.filter is Some {
            seq![Starting::SetUpFilter]
        } else {
            Seq::empty()
        }) + seq![Starting::Run] + all_tended(launch, child, 0) + seq![
            Starting::FindUser(child),
            Starting::Ready(child, mode),
        ],
    decreases launch.keep@.len() - i,
{
    let at = launch.keep_from(i);
    let filter = if launch.filter is Some {
        seq![Starting::SetUpFilter]
    } else {
        Seq::empty()
    };
    let end = seq![Starting::FindUser(child), Starting::Ready(child, mode)];
    let tended = all_tended(launch, child, 0);
    if i == launch.keep@.len() {
        let run = Starting::Run;
        let left: nat = if launch.filter is Some {
            (steps - 1) as nat
        } else {
            steps
        };
        lemma_all_tended(launch, child, mode, 0, (left - 1) as nat);
        assert(start_asks(launch, run, child, mode, left) == seq![run] + (tended + end));
        if launch.filter is Some {
            assert(start_asks(launch, at, child, mode, steps) == seq![at] + start_asks(
                launch,
                run,
                child,
                mode,
                left,
            ));
        }
        assert(all_kept(launch, i) =~= Seq::empty());
        assert(start_asks(launch, at, child, mode, steps) =~= all_kept(launch, i) + filter + seq![
            run,
        ] + tended + end);
    } else {
        lemma_all_kept(launch, child, mode, i + 1, (steps - 1) as nat);
        assert(launch.after_keep(at, Ok(())) == launch.keep_from(i + 1));
        assert(all_kept(launch, i) =~= seq![at] + all_kept(launch, i + 1));
        assert(start_asks(launch, at, child, mode, steps) =~= all_kept(launch, i) + filter + seq![
            Starting::Run,
        ] + tended + end);
    }
}

/// A start that goes well lets the child inherit every descriptor that it was given, sets its
/// filter up if it has one, starts it, takes every step of the parent, and ends with the child and
/// the users that were found.
pub proof fn law_start_does_everything_in_turn(
    launch: Launch,
    child: Pid,
    mode: Mode,
    steps: nat,
)
    requires
        launch.keep@.len() <= usize::MAX,
        launch.parent@.len() <= usize::MAX,
        steps >= launch.keep@.len() + launch.parent@.len() + 4,
    ensures
        ({
            let asked = start_asks(launch, launch.keep_from(0), child, mode, steps);
            let n = launch.keep@.len();
            let m = launch.parent@.len();
            let f: nat = if launch.filter is Some {
                1
            } else {
                0
            };
            &&& asked.len() == n + f + 1 + m + 2
            &&& forall|i: int| 0 <= i < n ==> #[trigger] asked[i] == Starting::Keep(i as usize)
            &&& launch.filter is Some ==> asked[n as int] == Starting::SetUpFilter
            &&& asked[(n + f) as int] == Starting::Run
            &&& forall|i: int|
                n + f < i <= n + f + m ==> #[trigger] asked[i] == Starting::Tend(
                    child,
                    (i - n - f - 1) as usize,
                )
            &&& asked[(n + f + m + 1) as int] == Starting::FindUser(child)
            &&& asked.last() == Starting::Ready(child, mode)
        }),
{
    lemma_all_kept(launch, child, mode, 0, steps);
}

/// A start ends at the first thing that fails, with the error that says so, except that a stream
/// which cannot be logged does not stop it. A reply to something else changes nothing.
pub proof fn law_start_ends_at_the_first_failure(
    launch: Launch,
    at: Starting,
    i: usize,
    child: Pid,
    errno: Errno,
    filter: FilterError,
    user: UserError,
    mode: Mode,
)
    ensures
        i < launch.keep@.len() ==> launch.after_keep(Starting::Keep(i), Err(errno))
            == Starting::Failed(Error::Errno(None, "fnctl fd", errno)),
        launch.after_set_up(Starting::SetUpFilter, Err(filter)) == Starting::Failed(
            Error::Seccomp(filter),
        ),
        launch.after_run(Starting::Run, Err(errno)) == Starting::Failed(Error::Fork(errno)),
        i < launch.parent@.len() ==> match launch.parent@[i as int] {
            ParentStep::Close(stream, _) => launch.after_tend(Starting::Tend(child, i), Err(errno))
                == Starting::Failed(failed(Call::Close(stream, child), errno)),
            ParentStep::Log(_, _) => launch.after_tend(Starting::Tend(child, i), Err(errno))
                == launch.after_tend(Starting::Tend(child, i), Ok(())),
        },
        launch.after_find(Starting::FindUser(child), Err(user)) == Starting::Failed(
            Error::User(user),
        ),
        !(at is Keep) ==> launch.after_keep(at, Ok(())) == at && launch.after_keep(at, Err(errno))
            == at,
        !(at is SetUpFilter) ==> launch.after_set_up(at, Ok(())) == at && launch.after_set_up(
            at,
            Err(filter),
        ) == at,
        !(at is Run) ==> launch.after_run(at, Ok(child)) == at && launch.after_run(at, Err(errno))
            == at,
        !(at is Tend) ==> launch.after_tend(at, Ok(())) == at && launch.after_tend(at, Err(errno))
            == at,
        !(at is FindUser) ==> launch.after_find(at, Ok(mode)) == at && launch.after_find(
            at,
            Err(user),
        ) == at,
{
}

} // verus!
