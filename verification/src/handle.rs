//! A handle on a child: it mediates access to the child's input, output and error, as far as
//! they were set up, as well as signals and teardown.
//!
//! Nothing here calls the system. An operation that has to, such as waiting, stands as a value
//! that says what is to be done next. What came of it is handed back to the handle, which takes
//! note of it and says how the operation goes on, until it is done. A reply to something other
//! than what was to be done changes nothing.

use crate::stream::{fresh_stream, Stream};
use crate::system::{Errno, Method, Mode, Signal, UserError, WaitStatus};
use crate::text::{lossy, same_text};
use nix::unistd::Pid;
use vstd::prelude::*;
use vstd::utf8::*;

verus! {

/// The exit code of a child that has none: it has not exited yet, or not by itself.
pub const NO_CODE: i32 = -1;

/// Errors of a [`Handle`].
#[derive(Debug)]
pub enum Error {
    /// Waiting for the process, killing it or sending it a signal failed.
    Comm(Errno),
    /// The stream that was asked for was not set up.
    NoFile,
    /// There is no associate of this name.
    NoAssociate(String),
    /// The child failed: what it wrote could not be read.
    Child,
    /// The child no longer exists, so that nothing can be written to it.
    Input,
    /// The parent received a termination signal.
    Signal,
    /// Reading or writing failed.
    Io(std::io::Error),
    /// The child did not exit in time.
    Timeout,
    /// Acting as another user failed.
    User(UserError),
    /// A system call failed.
    Errno(Errno),
}

/// A handle to a child.
///
/// Other handles, say of an auxiliary task of the child's, can be associated with it, so that
/// only this one has to be managed: they go when it goes, as [`Handle::go`] says.
///
/// A handle comes from a [`crate::Spawner`].
#[derive(Debug)]
pub struct Handle {
    /// The name of the process.
    name: String,
    /// The child, as long as it has not been waited for.
    child: Option<Pid>,
    /// The exit code, once the child has exited.
    exit: i32,
    /// Other handles that go with this one.
    associated: Vec<Handle>,
    /// The child's standard input.
    stdin: Option<i32>,
    /// The child's standard output.
    stdout: Option<Stream>,
    /// The child's standard error.
    stderr: Option<Stream>,
    /// The users that the child runs as, under which signals are sent to it.
    mode: Mode,
    /// How the child was started.
    method: Method,
}

/// A handle, seen from outside.
pub struct HandleView {
    /// The name of the process.
    pub name: Seq<char>,
    /// The child, as long as it has not been waited for.
    pub child: Option<Pid>,
    /// The exit code, once the child has exited.
    pub exit: i32,
    /// Other handles that go with this one.
    pub associated: Seq<Handle>,
    /// The child's standard input.
    pub stdin: Option<i32>,
    /// The child's standard output.
    pub stdout: Option<Stream>,
    /// The child's standard error.
    pub stderr: Option<Stream>,
    /// The users that the child runs as.
    pub mode: Mode,
    /// How the child was started.
    pub method: Method,
}

impl View for Handle {
    type V = HandleView;

    closed spec fn view(&self) -> HandleView {
        HandleView {
            name: self.name@,
            child: self.child,
            exit: self.exit,
            associated: self.associated@,
            stdin: self.stdin,
            stdout: self.stdout,
            stderr: self.stderr,
            mode: self.mode,
            method: self.method,
        }
    }
}

// ---------------------------------------------------------------------------
// Operations under way
// ---------------------------------------------------------------------------

/// A check whether the child is alive.
#[derive(Debug)]
pub enum Alive {
    /// Ask about the child, without waiting for it.
    Poll(Pid),
    /// The child that is alive, if it is.
    Done(Result<Option<Pid>, Error>),
}

/// A signal on its way to the child.
#[derive(Debug)]
pub enum Sending {
    /// Ask about the child, without waiting for it.
    Poll(Pid, Signal),
    /// Send it the signal, acting as these users.
    Kill(Pid, Signal, Mode),
    /// The signal was sent, or there was no child to send it to.
    Done(Result<(), Error>),
}

/// A signal on its way to the child and its associates.
#[derive(Debug)]
pub enum GroupSending {
    /// It is the child's turn.
    Own(Signal, Sending),
    /// It is the turn of this associate.
    Associate(usize, Signal, Sending),
    /// The signal was sent to all.
    Done(Result<(), Error>),
}

/// An end that is being put to the child.
#[derive(Debug)]
pub enum Terminating {
    /// Ask about the child, without waiting for it.
    Poll(Pid),
    /// Ask once more, as every signal does before it is sent.
    Repoll(Pid),
    /// Ask the child to end, acting as these users.
    Kill(Pid, Signal, Mode),
    /// Wait for the child.
    Reap(Pid),
    /// It is over.
    Done(Ended),
}

/// How putting an end to the child went.
#[derive(Debug)]
pub enum Ended {
    /// There was no child.
    Absent,
    /// It could not be found out whether there is a child.
    Unreachable(Error),
    /// The child could not be asked to end.
    Unsent(Pid, Error),
    /// The child was asked to end, and this came of waiting for it.
    Reaped(Pid, Result<WaitStatus, Errno>),
}

/// What is worth a warning when a handle goes.
#[derive(Debug)]
pub enum Warning {
    /// It could not be found out whether there is a child.
    Unreachable,
    /// The process could not be terminated.
    Terminate(Pid, Error),
    /// The process could not be waited for.
    Wait(Pid, Errno),
}

/// How to wait for the child.
#[derive(Clone, Copy, Debug, PartialEq, Eq, Structural)]
pub enum Manner {
    /// Until it exits, or a signal to end arrives.
    Signals,
    /// Until it exits, a signal to end arrives, or time is up.
    Timed,
    /// Until it exits, whatever arrives.
    Blocking,
}

/// A wait for the child.
#[derive(Debug)]
pub enum Waiting {
    /// Ask about the child, without waiting for it.
    Poll(Pid, Manner),
    /// Begin to listen for signals, and have `SIGALRM` raised in time where the wait is timed.
    Listen(Pid, Manner),
    /// Wait for the next signal.
    Catch(Pid, Manner),
    /// Wait for the child.
    Reap(Pid, Manner),
    /// The exit code.
    Done(Result<i32, Error>),
}

// ---------------------------------------------------------------------------
// How an operation goes on
// ---------------------------------------------------------------------------

/// What a look at the child tells.
pub enum Verdict {
    /// It is alive.
    Alive,
    /// It is gone, with this exit code.
    Gone(i32),
    /// It could not be looked at.
    Failed(Errno),
    /// Something else happened to it: look again.
    Again,
}

/// What a look at the child tells. A child that was killed, or that is no child of this process
/// any more, has no exit code of its own.
pub open spec fn verdict(status: Result<WaitStatus, Errno>) -> Verdict {
    match status {
        Ok(WaitStatus::StillAlive) => Verdict::Alive,
        Ok(WaitStatus::Exited(_, code)) => Verdict::Gone(code),
        Ok(WaitStatus::Signaled(_, _, _)) => Verdict::Gone(NO_CODE),
        Ok(_) => Verdict::Again,
        Err(Errno::ECHILD) => Verdict::Gone(NO_CODE),
        Err(e) => Verdict::Failed(e),
    }
}

impl HandleView {
    /// The handle once its child is gone, with this exit code.
    pub open spec fn gone(self, code: i32) -> HandleView {
        HandleView { child: None, exit: code, ..self }
    }

    /// The handle once it has no child to look after.
    pub open spec fn childless(self) -> HandleView {
        HandleView { child: None, ..self }
    }

    /// The handle once the child was looked at.
    pub open spec fn looked(self, status: Result<WaitStatus, Errno>) -> HandleView {
        match verdict(status) {
            Verdict::Gone(code) => self.gone(code),
            _ => self,
        }
    }

    /// The handle once a signal was sent, which tells whether there is such a process.
    pub open spec fn sent(self, sent: Result<Result<(), Errno>, UserError>) -> HandleView {
        match sent {
            Ok(Err(Errno::ESRCH)) => self.childless(),
            _ => self,
        }
    }

    /// The handle once the child was waited for.
    pub open spec fn reaped(
        self,
        manner: Manner,
        status: Result<WaitStatus, Errno>,
    ) -> HandleView {
        match status {
            Ok(WaitStatus::Exited(_, code)) => self.gone(code),
            Ok(WaitStatus::Signaled(_, _, _)) => if manner is Blocking {
                self.childless()
            } else {
                self.gone(NO_CODE)
            },
            Ok(_) => self.childless(),
            Err(Errno::ECHILD) => if manner is Blocking {
                self
            } else {
                self.gone(NO_CODE)
            },
            Err(_) => self,
        }
    }

    /// A check begins.
    pub open spec fn check(self) -> Alive {
        match self.child {
            Some(pid) => Alive::Poll(pid),
            None => Alive::Done(Ok(None)),
        }
    }

    /// A signal sets out.
    pub open spec fn send(self, sig: Signal) -> Sending {
        match self.child {
            Some(pid) => Sending::Poll(pid, sig),
            None => Sending::Done(Ok(())),
        }
    }

    /// The first associate from the `i`th on that has a child is next, or all have had the
    /// signal.
    pub open spec fn next_associate(self, i: int, sig: Signal) -> GroupSending
        decreases self.associated.len() - i,
    {
        if i < 0 || i >= self.associated.len() {
            GroupSending::Done(Ok(()))
        } else if self.associated[i]@.child is Some {
            GroupSending::Associate(i as usize, sig, self.associated[i]@.send(sig))
        } else {
            self.next_associate(i + 1, sig)
        }
    }

    /// An end begins to be put to the child.
    pub open spec fn end(self) -> Terminating {
        match self.child {
            Some(pid) => Terminating::Poll(pid),
            None => Terminating::Done(Ended::Absent),
        }
    }

    /// A wait begins.
    pub open spec fn await_exit(self, manner: Manner) -> Waiting {
        match self.child {
            Some(pid) => Waiting::Poll(pid, manner),
            None => Waiting::Done(Ok(self.exit)),
        }
    }
}

/// A check goes on.
pub open spec fn alive_polled(at: Alive, status: Result<WaitStatus, Errno>) -> Alive {
    match at {
        Alive::Poll(pid) => match verdict(status) {
            Verdict::Alive => Alive::Done(Ok(Some(pid))),
            Verdict::Gone(_) => Alive::Done(Ok(None)),
            Verdict::Failed(e) => Alive::Done(Err(Error::Comm(e))),
            Verdict::Again => at,
        },
        _ => at,
    }
}

/// A signal goes on once the child was looked at.
pub open spec fn signal_polled(
    at: Sending,
    mode: Mode,
    status: Result<WaitStatus, Errno>,
) -> Sending {
    match at {
        Sending::Poll(pid, sig) => match verdict(status) {
            Verdict::Alive => Sending::Kill(pid, sig, mode),
            Verdict::Gone(_) => Sending::Done(Ok(())),
            Verdict::Failed(e) => Sending::Done(Err(Error::Comm(e))),
            Verdict::Again => at,
        },
        _ => at,
    }
}

/// What came of sending a signal. A process that does not exist needs none.
pub open spec fn delivery(sent: Result<Result<(), Errno>, UserError>) -> Result<(), Error> {
    match sent {
        Ok(Ok(())) => Ok(()),
        Ok(Err(Errno::ESRCH)) => Ok(()),
        Ok(Err(e)) => Err(Error::Comm(e)),
        Err(e) => Err(Error::User(e)),
    }
}

/// An end goes on once the child was looked at.
pub open spec fn terminate_polled(
    at: Terminating,
    mode: Mode,
    status: Result<WaitStatus, Errno>,
) -> Terminating {
    match at {
        Terminating::Poll(pid) => match verdict(status) {
            Verdict::Alive => Terminating::Repoll(pid),
            Verdict::Gone(_) => Terminating::Done(Ended::Absent),
            Verdict::Failed(e) => Terminating::Done(Ended::Unreachable(Error::Comm(e))),
            Verdict::Again => at,
        },
        Terminating::Repoll(pid) => match verdict(status) {
            Verdict::Alive => Terminating::Kill(pid, Signal::SIGTERM, mode),
            Verdict::Gone(_) => Terminating::Reap(pid),
            Verdict::Failed(e) => Terminating::Done(Ended::Unsent(pid, Error::Comm(e))),
            Verdict::Again => at,
        },
        _ => at,
    }
}

/// An end goes on once the signal was sent.
pub open spec fn terminate_sent(
    at: Terminating,
    sent: Result<Result<(), Errno>, UserError>,
) -> Terminating {
    match at {
        Terminating::Kill(pid, _, _) => match delivery(sent) {
            Ok(()) => Terminating::Reap(pid),
            Err(e) => Terminating::Done(Ended::Unsent(pid, e)),
        },
        _ => at,
    }
}

/// An end goes on once the child was waited for.
pub open spec fn terminate_reaped(at: Terminating, status: Result<WaitStatus, Errno>) -> Terminating {
    match at {
        Terminating::Reap(pid) => Terminating::Done(Ended::Reaped(pid, status)),
        _ => at,
    }
}

/// A wait goes on once the child was looked at.
pub open spec fn wait_polled(at: Waiting, status: Result<WaitStatus, Errno>) -> Waiting {
    match at {
        Waiting::Poll(pid, manner) => match verdict(status) {
            Verdict::Alive => if manner is Blocking {
                Waiting::Reap(pid, manner)
            } else {
                Waiting::Listen(pid, manner)
            },
            Verdict::Gone(code) => Waiting::Done(Ok(code)),
            Verdict::Failed(e) => Waiting::Done(Err(Error::Comm(e))),
            Verdict::Again => at,
        },
        _ => at,
    }
}

/// A wait goes on once a signal arrived.
pub open spec fn wait_caught(at: Waiting, signal: Signal) -> Waiting {
    match at {
        Waiting::Catch(pid, manner) => if signal == Signal::SIGCHLD {
            Waiting::Reap(pid, manner)
        } else if signal == Signal::SIGALRM && manner is Timed {
            Waiting::Done(Err(Error::Timeout))
        } else {
            Waiting::Done(Err(Error::Signal))
        },
        _ => at,
    }
}

/// A wait goes on once the child was waited for.
pub open spec fn wait_reaped(at: Waiting, status: Result<WaitStatus, Errno>) -> Waiting {
    match at {
        Waiting::Reap(pid, manner) => match status {
            Ok(WaitStatus::Exited(_, code)) => Waiting::Done(Ok(code)),
            Ok(WaitStatus::Signaled(_, _, _)) => if manner is Blocking {
                at
            } else {
                Waiting::Done(Ok(NO_CODE))
            },
            Ok(_) => if manner is Blocking {
                at
            } else {
                Waiting::Catch(pid, manner)
            },
            Err(Errno::ECHILD) => if manner is Blocking {
                Waiting::Done(Err(Error::Comm(Errno::ECHILD)))
            } else {
                Waiting::Done(Ok(NO_CODE))
            },
            Err(e) => Waiting::Done(Err(Error::Comm(e))),
        },
        _ => at,
    }
}

impl Ended {
    /// What the caller is told.
    pub open spec fn told(self) -> Result<(), Error> {
        match self {
            Ended::Absent => Ok(()),
            Ended::Unreachable(e) => Err(e),
            Ended::Unsent(_, e) => Err(e),
            Ended::Reaped(_, _) => Ok(()),
        }
    }

    /// What a handle that goes warns of.
    pub open spec fn warned(self) -> Option<Warning> {
        match self {
            Ended::Absent => None,
            Ended::Unreachable(_) => Some(Warning::Unreachable),
            Ended::Unsent(pid, e) => Some(Warning::Terminate(pid, e)),
            Ended::Reaped(_, Ok(_)) => None,
            Ended::Reaped(pid, Err(e)) => Some(Warning::Wait(pid, e)),
        }
    }

    /// What to tell a caller who asked for the end.
    pub fn result(self) -> (res: Result<(), Error>)
        ensures
            res == self.told(),
    {
        match self {
            Ended::Absent => Ok(()),
            Ended::Unreachable(e) => Err(e),
            Ended::Unsent(_, e) => Err(e),
            Ended::Reaped(_, _) => Ok(()),
        }
    }

    /// What to warn of when the handle goes.
    pub fn warning(self) -> (warning: Option<Warning>)
        ensures
            warning == self.warned(),
    {
        match self {
            Ended::Absent => None,
            Ended::Unreachable(_) => Some(Warning::Unreachable),
            Ended::Unsent(pid, e) => Some(Warning::Terminate(pid, e)),
            Ended::Reaped(pid, status) => match status {
                Ok(_) => None,
                Err(e) => Some(Warning::Wait(pid, e)),
            },
        }
    }
}

impl Handle {
    /// A handle to a child that was started under this name.
    pub fn new(
        name: String,
        pid: Pid,
        mode: Mode,
        method: Method,
        stdin: Option<i32>,
        stdout: Option<i32>,
        stderr: Option<i32>,
        associates: Vec<Handle>,
    ) -> (handle: Self)
        ensures
            handle@.name == name@,
            handle@.child == Some(pid),
            handle@.exit == NO_CODE,
            handle@.associated == associates@,
            handle@.stdin == stdin,
            opened(handle@.stdout, stdout),
            opened(handle@.stderr, stderr),
            handle@.mode == mode,
            handle@.method == method,
    {
        Handle {
            name,
            child: Some(pid),
            exit: NO_CODE,
            associated: associates,
            stdin,
            stdout: Self::open(stdout),
            stderr: Self::open(stderr),
            mode,
            method,
        }
    }

    /// A stream of what will be read from an end of a pipe, if there is one.
    fn open(fd: Option<i32>) -> (stream: Option<Stream>)
        ensures
            opened(stream, fd),
    {
        match fd {
            Some(fd) => Some(Stream::new(fd)),
            None => None,
        }
    }

    /// The name of the handle.
    pub fn name(&self) -> (name: &str)
        ensures
            name@ == self@.name,
    {
        self.name.as_str()
    }

    /// The child.
    pub fn pid(&self) -> (pid: &Option<Pid>)
        ensures
            *pid == self@.child,
    {
        &self.child
    }

    /// The users that the child runs as.
    pub fn mode(&self) -> (mode: Mode)
        ensures
            mode == self@.mode,
    {
        self.mode
    }

    /// How the child was started.
    pub fn spawn_method(&self) -> (method: Method)
        ensures
            method == self@.method,
    {
        self.method
    }

    /// The child's standard input, as long as it is open.
    pub fn stdin(&self) -> (fd: Option<i32>)
        ensures
            fd == self@.stdin,
    {
        self.stdin
    }

    /// Where to write what is meant for the child.
    ///
    /// ## Errors
    /// [`Error::Input`] if the child's standard input was not set up, or is closed.
    pub fn write(&self) -> (fd: Result<i32, Error>)
        ensures
            fd == (match self@.stdin {
                Some(fd) => Ok::<i32, Error>(fd),
                None => Err::<i32, Error>(Error::Input),
            }),
    {
        match self.stdin {
            Some(fd) => Ok(fd),
            None => Err(Error::Input),
        }
    }

    /// How many handles are associated with this one.
    pub fn associates(&self) -> (count: usize)
        ensures
            count == self@.associated.len(),
    {
        self.associated.len()
    }

    // -----------------------------------------------------------------------
    // Looking at the child
    // -----------------------------------------------------------------------

    /// Takes note of a look at the child.
    fn look(&mut self, status: Result<WaitStatus, Errno>) -> (seen: Verdict)
        ensures
            seen == verdict(status),
            final(self)@ == old(self)@.looked(status),
    {
        match status {
            Ok(WaitStatus::StillAlive) => Verdict::Alive,
            Ok(WaitStatus::Exited(_, code)) => {
                self.child = None;
                self.exit = code;
                Verdict::Gone(code)
            },
            Ok(WaitStatus::Signaled(_, _, _)) => {
                self.child = None;
                self.exit = NO_CODE;
                Verdict::Gone(NO_CODE)
            },
            Ok(_) => Verdict::Again,
            Err(Errno::ECHILD) => {
                self.child = None;
                self.exit = NO_CODE;
                Verdict::Gone(NO_CODE)
            },
            Err(e) => Verdict::Failed(e),
        }
    }

    /// Checks whether the child is alive, without waiting for it.
    pub fn alive(&self) -> (at: Alive)
        ensures
            at == self@.check(),
    {
        match self.child {
            Some(pid) => Alive::Poll(pid),
            None => Alive::Done(Ok(None)),
        }
    }

    /// Goes on with a check once the child was looked at.
    ///
    /// ## Errors
    /// [`Error::Comm`] if it could not be looked at.
    pub fn alive_polled(&mut self, at: Alive, status: Result<WaitStatus, Errno>) -> (next: Alive)
        ensures
            next == alive_polled(at, status),
            final(self)@ == (if at is Poll {
                old(self)@.looked(status)
            } else {
                old(self)@
            }),
    {
        match at {
            Alive::Poll(pid) => match self.look(status) {
                Verdict::Alive => Alive::Done(Ok(Some(pid))),
                Verdict::Gone(_) => Alive::Done(Ok(None)),
                Verdict::Failed(e) => Alive::Done(Err(Error::Comm(e))),
                Verdict::Again => Alive::Poll(pid),
            },
            other => other,
        }
    }

    // -----------------------------------------------------------------------
    // Signals
    // -----------------------------------------------------------------------

    /// Takes note of what came of sending a signal.
    fn deliver(&mut self, sent: Result<Result<(), Errno>, UserError>) -> (res: Result<(), Error>)
        ensures
            res == delivery(sent),
            final(self)@ == old(self)@.sent(sent),
    {
        match sent {
            Ok(Ok(())) => Ok(()),
            Ok(Err(Errno::ESRCH)) => {
                self.child = None;
                Ok(())
            },
            Ok(Err(e)) => Err(Error::Comm(e)),
            Err(e) => Err(Error::User(e)),
        }
    }

    /// Sends a signal to the child.
    pub fn signal(&self, sig: Signal) -> (at: Sending)
        ensures
            at == self@.send(sig),
    {
        match self.child {
            Some(pid) => Sending::Poll(pid, sig),
            None => Sending::Done(Ok(())),
        }
    }

    /// Goes on with a signal once the child was looked at.
    ///
    /// ## Errors
    /// [`Error::Comm`] if it could not be looked at.
    pub fn signal_polled(&mut self, at: Sending, status: Result<WaitStatus, Errno>) -> (next:
        Sending)
        ensures
            next == signal_polled(at, old(self)@.mode, status),
            final(self)@ == (if at is Poll {
                old(self)@.looked(status)
            } else {
                old(self)@
            }),
    {
        match at {
            Sending::Poll(pid, sig) => match self.look(status) {
                Verdict::Alive => Sending::Kill(pid, sig, self.mode),
                Verdict::Gone(_) => Sending::Done(Ok(())),
                Verdict::Failed(e) => Sending::Done(Err(Error::Comm(e))),
                Verdict::Again => Sending::Poll(pid, sig),
            },
            other => other,
        }
    }

    /// Goes on once the signal was sent. Where there is no such process, the handle has no child
    /// any more, and nothing failed.
    ///
    /// ## Errors
    /// [`Error::Comm`] if the signal could not be sent, [`Error::User`] if the process could not
    /// act as the users that the child runs as.
    pub fn signal_sent(
        &mut self,
        at: Sending,
        sent: Result<Result<(), Errno>, UserError>,
    ) -> (next: Sending)
        ensures
            next == (if at is Kill {
                Sending::Done(delivery(sent))
            } else {
                at
            }),
            final(self)@ == (if at is Kill {
                old(self)@.sent(sent)
            } else {
                old(self)@
            }),
    {
        match at {
            Sending::Kill(_, _, _) => Sending::Done(self.deliver(sent)),
            other => other,
        }
    }

    /// Sends a signal to the child, and to all associated handles.
    pub fn signal_group(&self, sig: Signal) -> (at: GroupSending)
        ensures
            at == own_settled(self@, sig, self@.send(sig)),
    {
        self.settle_own(sig, self.signal(sig))
    }

    /// Passes the signal on to the associates once the child is done with.
    fn settle_own(&self, sig: Signal, at: Sending) -> (next: GroupSending)
        ensures
            next == own_settled(self@, sig, at),
    {
        match at {
            Sending::Done(Ok(())) => self.next_associate(0, sig),
            Sending::Done(Err(e)) => GroupSending::Done(Err(e)),
            other => GroupSending::Own(sig, other),
        }
    }

    /// Passes the signal on once an associate is done with.
    fn settle_associate(&self, i: usize, sig: Signal, at: Sending) -> (next: GroupSending)
        requires
            i < self@.associated.len(),
        ensures
            next == associate_settled(self@, i, sig, at),
    {
        assert(i < self.associated.len());
        match at {
            Sending::Done(Ok(())) => self.next_associate(i + 1, sig),
            Sending::Done(Err(e)) => GroupSending::Done(Err(e)),
            other => GroupSending::Associate(i, sig, other),
        }
    }

    /// The first associate from here on that has a child.
    fn next_associate(&self, from: usize, sig: Signal) -> (next: GroupSending)
        requires
            from <= self@.associated.len(),
        ensures
            next == self@.next_associate(from as int, sig),
    {
        let mut i: usize = from;
        while i < self.associated.len()
            invariant
                i <= self.associated@.len(),
                self@.associated == self.associated@,
                self@.next_associate(i as int, sig) == self@.next_associate(from as int, sig),
            decreases self.associated@.len() - i,
        {
            match self.associated[i].signal(sig) {
                Sending::Done(_) => {},
                at => {
                    return GroupSending::Associate(i, sig, at);
                },
            }
            i += 1;
        }
        GroupSending::Done(Ok(()))
    }

    /// Goes on with a signal to all once the process whose turn it is was looked at.
    ///
    /// ## Errors
    /// As for [`Handle::signal_polled`]. The first error ends it.
    pub fn signal_group_polled(
        &mut self,
        at: GroupSending,
        status: Result<WaitStatus, Errno>,
    ) -> (next: GroupSending)
        ensures
            match at {
                GroupSending::Own(sig, sending) => {
                    &&& next == own_settled(
                        final(self)@,
                        sig,
                        signal_polled(sending, old(self)@.mode, status),
                    )
                    &&& final(self)@ == (if sending is Poll {
                        old(self)@.looked(status)
                    } else {
                        old(self)@
                    })
                },
                GroupSending::Associate(i, sig, sending) => if i < old(self)@.associated.len() {
                    let member = old(self)@.associated[i as int]@;
                    &&& next == associate_settled(
                        final(self)@,
                        i,
                        sig,
                        signal_polled(sending, member.mode, status),
                    )
                    &&& only_associate_changed(old(self)@, final(self)@, i as int)
                    &&& final(self)@.associated[i as int]@ == (if sending is Poll {
                        member.looked(status)
                    } else {
                        member
                    })
                } else {
                    next == at && final(self)@ == old(self)@
                },
                GroupSending::Done(_) => next == at && final(self)@ == old(self)@,
            },
    {
        match at {
            GroupSending::Own(sig, sending) => {
                let sending = self.signal_polled(sending, status);
                self.settle_own(sig, sending)
            },
            GroupSending::Associate(i, sig, sending) => {
                if i < self.associated.len() {
                    let sending = self.associated[i].signal_polled(sending, status);
                    self.settle_associate(i, sig, sending)
                } else {
                    GroupSending::Associate(i, sig, sending)
                }
            },
            other => other,
        }
    }

    /// Goes on with a signal to all once it was sent to the process whose turn it is.
    ///
    /// ## Errors
    /// As for [`Handle::signal_sent`]. The first error ends it.
    pub fn signal_group_sent(
        &mut self,
        at: GroupSending,
        sent: Result<Result<(), Errno>, UserError>,
    ) -> (next: GroupSending)
        ensures
            match at {
                GroupSending::Own(sig, sending) => {
                    &&& next == own_settled(
                        final(self)@,
                        sig,
                        if sending is Kill {
                            Sending::Done(delivery(sent))
                        } else {
                            sending
                        },
                    )
                    &&& final(self)@ == (if sending is Kill {
                        old(self)@.sent(sent)
                    } else {
                        old(self)@
                    })
                },
                GroupSending::Associate(i, sig, sending) => if i < old(self)@.associated.len() {
                    let member = old(self)@.associated[i as int]@;
                    &&& next == associate_settled(
                        final(self)@,
                        i,
                        sig,
                        if sending is Kill {
                            Sending::Done(delivery(sent))
                        } else {
                            sending
                        },
                    )
                    &&& only_associate_changed(old(self)@, final(self)@, i as int)
                    &&& final(self)@.associated[i as int]@ == (if sending is Kill {
                        member.sent(sent)
                    } else {
                        member
                    })
                } else {
                    next == at && final(self)@ == old(self)@
                },
                GroupSending::Done(_) => next == at && final(self)@ == old(self)@,
            },
    {
        match at {
            GroupSending::Own(sig, sending) => {
                let sending = self.signal_sent(sending, sent);
                self.settle_own(sig, sending)
            },
            GroupSending::Associate(i, sig, sending) => {
                if i < self.associated.len() {
                    let sending = self.associated[i].signal_sent(sending, sent);
                    self.settle_associate(i, sig, sending)
                } else {
                    GroupSending::Associate(i, sig, sending)
                }
            },
            other => other,
        }
    }

    // -----------------------------------------------------------------------
    // Putting an end to the child
    // -----------------------------------------------------------------------

    /// Asks the child to end with `SIGTERM`, and waits for it. [`Handle::go`] does the same, and
    /// for all that go with the handle.
    pub fn terminate(&self) -> (at: Terminating)
        ensures
            at == self@.end(),
    {
        match self.child {
            Some(pid) => Terminating::Poll(pid),
            None => Terminating::Done(Ended::Absent),
        }
    }

    /// Goes on with the end once the child was looked at.
    pub fn terminate_polled(
        &mut self,
        at: Terminating,
        status: Result<WaitStatus, Errno>,
    ) -> (next: Terminating)
        ensures
            next == terminate_polled(at, old(self)@.mode, status),
            final(self)@ == (if at is Poll || at is Repoll {
                old(self)@.looked(status)
            } else {
                old(self)@
            }),
    {
        match at {
            Terminating::Poll(pid) => match self.look(status) {
                Verdict::Alive => Terminating::Repoll(pid),
                Verdict::Gone(_) => Terminating::Done(Ended::Absent),
                Verdict::Failed(e) => Terminating::Done(Ended::Unreachable(Error::Comm(e))),
                Verdict::Again => Terminating::Poll(pid),
            },
            Terminating::Repoll(pid) => match self.look(status) {
                Verdict::Alive => Terminating::Kill(pid, Signal::SIGTERM, self.mode),
                Verdict::Gone(_) => Terminating::Reap(pid),
                Verdict::Failed(e) => Terminating::Done(Ended::Unsent(pid, Error::Comm(e))),
                Verdict::Again => Terminating::Repoll(pid),
            },
            other => other,
        }
    }

    /// Goes on with the end once the signal was sent.
    pub fn terminate_sent(
        &mut self,
        at: Terminating,
        sent: Result<Result<(), Errno>, UserError>,
    ) -> (next: Terminating)
        ensures
            next == terminate_sent(at, sent),
            final(self)@ == (if at is Kill {
                old(self)@.sent(sent)
            } else {
                old(self)@
            }),
    {
        match at {
            Terminating::Kill(pid, _, _) => match self.deliver(sent) {
                Ok(()) => Terminating::Reap(pid),
                Err(e) => Terminating::Done(Ended::Unsent(pid, e)),
            },
            other => other,
        }
    }

    /// Goes on with the end once the child was waited for.
    pub fn terminate_reaped(&self, at: Terminating, status: Result<WaitStatus, Errno>) -> (next:
        Terminating)
        ensures
            next == terminate_reaped(at, status),
    {
        match at {
            Terminating::Reap(pid) => Terminating::Done(Ended::Reaped(pid, status)),
            other => other,
        }
    }

    // -----------------------------------------------------------------------
    // Waiting for the child
    // -----------------------------------------------------------------------

    /// Begins a wait.
    fn begin_wait(&self, manner: Manner) -> (at: Waiting)
        ensures
            at == self@.await_exit(manner),
    {
        match self.child {
            Some(pid) => Waiting::Poll(pid, manner),
            None => Waiting::Done(Ok(self.exit)),
        }
    }

    /// Waits for the child to exit, up to a time.
    pub fn wait_timeout(&self) -> (at: Waiting)
        ensures
            at == self@.await_exit(Manner::Timed),
    {
        self.begin_wait(Manner::Timed)
    }

    /// Waits for the child to exit.
    pub fn wait_and(&self) -> (at: Waiting)
        ensures
            at == self@.await_exit(Manner::Signals),
    {
        self.begin_wait(Manner::Signals)
    }

    /// Waits for the child to exit: the exit code is all that is wanted of the handle.
    pub fn wait(&self) -> (at: Waiting)
        ensures
            at == self@.await_exit(Manner::Signals),
    {
        self.wait_and()
    }

    /// Waits for the child to exit without heed of signals, so that any thread can.
    pub fn wait_blocking(&self) -> (at: Waiting)
        ensures
            at == self@.await_exit(Manner::Blocking),
    {
        self.begin_wait(Manner::Blocking)
    }

    /// Goes on with a wait once the child was looked at.
    ///
    /// ## Errors
    /// [`Error::Comm`] if it could not be looked at.
    pub fn wait_polled(&mut self, at: Waiting, status: Result<WaitStatus, Errno>) -> (next:
        Waiting)
        ensures
            next == wait_polled(at, status),
            final(self)@ == (if at is Poll {
                old(self)@.looked(status)
            } else {
                old(self)@
            }),
    {
        match at {
            Waiting::Poll(pid, manner) => match self.look(status) {
                Verdict::Alive => match manner {
                    Manner::Blocking => Waiting::Reap(pid, manner),
                    _ => Waiting::Listen(pid, manner),
                },
                Verdict::Gone(code) => Waiting::Done(Ok(code)),
                Verdict::Failed(e) => Waiting::Done(Err(Error::Comm(e))),
                Verdict::Again => Waiting::Poll(pid, manner),
            },
            other => other,
        }
    }

    /// Goes on with a wait once signals are listened for.
    ///
    /// ## Errors
    /// [`Error::Io`] if they cannot be.
    pub fn wait_listening(&self, at: Waiting, res: Result<(), std::io::Error>) -> (next: Waiting)
        ensures
            next == (match at {
                Waiting::Listen(pid, manner) => match res {
                    Ok(()) => Waiting::Catch(pid, manner),
                    Err(e) => Waiting::Done(Err(Error::Io(e))),
                },
                _ => at,
            }),
    {
        match at {
            Waiting::Listen(pid, manner) => match res {
                Ok(()) => Waiting::Catch(pid, manner),
                Err(e) => Waiting::Done(Err(Error::Io(e))),
            },
            other => other,
        }
    }

    /// Goes on with a wait once a signal arrived.
    ///
    /// ## Errors
    /// [`Error::Timeout`] if time is up, [`Error::Signal`] if it is a signal to end.
    pub fn wait_caught(&self, at: Waiting, signal: Signal) -> (next: Waiting)
        ensures
            next == wait_caught(at, signal),
            at matches Waiting::Catch(pid, manner) ==> {
                &&& signal == Signal::SIGCHLD ==> next == Waiting::Reap(pid, manner)
                &&& signal != Signal::SIGCHLD ==> next is Done && next->Done_0 is Err
            },
    {
        match at {
            Waiting::Catch(pid, manner) => match signal {
                Signal::SIGCHLD => Waiting::Reap(pid, manner),
                Signal::SIGALRM => match manner {
                    Manner::Timed => Waiting::Done(Err(Error::Timeout)),
                    _ => Waiting::Done(Err(Error::Signal)),
                },
                _ => Waiting::Done(Err(Error::Signal)),
            },
            other => other,
        }
    }

    /// Goes on with a wait once the child was waited for. It is then no child of the handle's any
    /// more. A child that was killed has no exit code of its own; [`Handle::wait_blocking`] waits
    /// for one all the same, and finds that there is no such child.
    ///
    /// ## Errors
    /// [`Error::Comm`] if it could not be waited for. That there is no such child is an error
    /// only for [`Handle::wait_blocking`]; else the child has no exit code of its own.
    pub fn wait_reaped(&mut self, at: Waiting, status: Result<WaitStatus, Errno>) -> (next:
        Waiting)
        ensures
            next == wait_reaped(at, status),
            final(self)@ == (match at {
                Waiting::Reap(_, manner) => old(self)@.reaped(manner, status),
                _ => old(self)@,
            }),
    {
        match at {
            Waiting::Reap(pid, manner) => match status {
                Ok(WaitStatus::Exited(_, code)) => {
                    self.child = None;
                    self.exit = code;
                    Waiting::Done(Ok(code))
                },
                Ok(WaitStatus::Signaled(_, _, _)) => {
                    self.child = None;
                    match manner {
                        Manner::Blocking => Waiting::Reap(pid, manner),
                        _ => {
                            self.exit = NO_CODE;
                            Waiting::Done(Ok(NO_CODE))
                        },
                    }
                },
                Ok(_) => {
                    self.child = None;
                    match manner {
                        Manner::Blocking => Waiting::Reap(pid, manner),
                        _ => Waiting::Catch(pid, manner),
                    }
                },
                Err(Errno::ECHILD) => match manner {
                    Manner::Blocking => Waiting::Done(Err(Error::Comm(Errno::ECHILD))),
                    _ => {
                        self.child = None;
                        self.exit = NO_CODE;
                        Waiting::Done(Ok(NO_CODE))
                    },
                },
                Err(e) => Waiting::Done(Err(Error::Comm(e))),
            },
            other => other,
        }
    }

    // -----------------------------------------------------------------------
    // What belongs to the handle
    // -----------------------------------------------------------------------

    /// Gives the child up: the handle then has none to look after, and puts an end to none when
    /// it goes. The child can be managed by whoever gets it, or be left to run in the
    /// background, where it is killed when this program ends.
    pub fn detach(&mut self) -> (child: Option<Pid>)
        ensures
            child == old(self)@.child,
            final(self)@ == old(self)@.childless(),
    {
        let child = self.child;
        self.child = None;
        child
    }

    /// The first associate of this name, if there is one.
    pub fn get_associate(&mut self, name: &str) -> (found: Option<&mut Handle>)
        ensures
            match associate_named(old(self)@.associated, name@) {
                Some(i) => {
                    &&& found matches Some(h) && *h == old(self)@.associated[i]
                        && final(self)@.associated == old(self)@.associated.update(i, *final(h))
                    &&& only_associate_changed(old(self)@, final(self)@, i)
                },
                None => found is None && final(self)@ == old(self)@,
            },
    {
        let mut i: usize = 0;
        while i < self.associated.len()
            invariant
                i <= self.associated@.len(),
                *self == *old(self),
                associate_named(self.associated@, name@) == named_from(
                    self.associated@,
                    name@,
                    i as int,
                ),
            decreases self.associated@.len() - i,
        {
            if same_text(self.associated[i].name(), name) {
                return Some(&mut self.associated[i]);
            }
            i += 1;
        }
        None
    }

    /// The child's standard error.
    ///
    /// What is read from it is gone from it, so that [`Handle::error_all`] gives only what came
    /// since.
    ///
    /// ## Errors
    /// [`Error::NoFile`] if it was not set up.
    pub fn error(&mut self) -> (stream: Result<&mut Stream, Error>)
        ensures
            match old(self)@.stderr {
                Some(s) => stream matches Ok(r) && *r == s && final(self)@ == (HandleView {
                    stderr: Some(*final(r)),
                    ..old(self)@
                }),
                None => stream == Err::<&mut Stream, Error>(Error::NoFile) && final(self)@
                    == old(self)@,
            },
    {
        match &mut self.stderr {
            Some(s) => Ok(s),
            None => Err(Error::NoFile),
        }
    }

    /// The child's standard output.
    ///
    /// What is read from it is gone from it, so that [`Handle::output_all`] gives only what came
    /// since.
    ///
    /// ## Errors
    /// [`Error::NoFile`] if it was not set up.
    pub fn output(&mut self) -> (stream: Result<&mut Stream, Error>)
        ensures
            match old(self)@.stdout {
                Some(s) => stream matches Ok(r) && *r == s && final(self)@ == (HandleView {
                    stdout: Some(*final(r)),
                    ..old(self)@
                }),
                None => stream == Err::<&mut Stream, Error>(Error::NoFile) && final(self)@
                    == old(self)@,
            },
    {
        match &mut self.stdout {
            Some(s) => Ok(s),
            None => Err(Error::NoFile),
        }
    }

    /// The whole of the child's standard error, once the child was waited for: what is there,
    /// and then `rest`, which came until the stream ended. The stream is then done with; the
    /// handle is not.
    ///
    /// ## Errors
    /// What waiting gave; [`Error::NoFile`] if it was not set up; [`Error::Child`] if it could not
    /// be read.
    pub fn error_all(
        &mut self,
        waited: Result<i32, Error>,
        rest: &[u8],
        joined: bool,
    ) -> (text: Result<String, Error>)
        ensures
            is_all(text, waited, old(self)@.stderr, rest@, joined),
            final(self)@ == (if waited is Ok {
                HandleView { stderr: None, ..old(self)@ }
            } else {
                old(self)@
            }),
    {
        match waited {
            Ok(_) => all_of(self.stderr.take(), rest, joined),
            Err(e) => Err(e),
        }
    }

    /// The whole of the child's standard output, once the child was waited for: what is there,
    /// and then `rest`, which came until the stream ended. The stream is then done with; the
    /// handle is not.
    ///
    /// ## Errors
    /// What waiting gave; [`Error::NoFile`] if it was not set up; [`Error::Child`] if it could not
    /// be read.
    pub fn output_all(
        &mut self,
        waited: Result<i32, Error>,
        rest: &[u8],
        joined: bool,
    ) -> (text: Result<String, Error>)
        ensures
            is_all(text, waited, old(self)@.stdout, rest@, joined),
            final(self)@ == (if waited is Ok {
                HandleView { stdout: None, ..old(self)@ }
            } else {
                old(self)@
            }),
    {
        match waited {
            Ok(_) => all_of(self.stdout.take(), rest, joined),
            Err(e) => Err(e),
        }
    }

    /// Closes the handle's side of the child's standard input, so that the child finds its end.
    ///
    /// ## Errors
    /// [`Error::NoFile`] if it was not set up, or is closed.
    pub fn close(&mut self) -> (res: Result<(), Error>)
        ensures
            res == (if old(self)@.stdin is Some {
                Ok::<(), Error>(())
            } else {
                Err::<(), Error>(Error::NoFile)
            }),
            final(self)@ == (HandleView { stdin: None, ..old(self)@ }),
    {
        let open = self.stdin.is_some();
        self.stdin = None;
        if open {
            Ok(())
        } else {
            Err(Error::NoFile)
        }
    }
}

/// There is a stream exactly where there is an end of a pipe, and nothing has arrived on it.
pub open spec fn opened(stream: Option<Stream>, fd: Option<i32>) -> bool {
    match fd {
        Some(fd) => stream matches Some(s) && s@ == fresh_stream(fd),
        None => stream is None,
    }
}

/// Where the signal goes once the child has come so far with it.
pub open spec fn own_settled(handle: HandleView, sig: Signal, at: Sending) -> GroupSending {
    match at {
        Sending::Done(Ok(())) => handle.next_associate(0, sig),
        Sending::Done(Err(e)) => GroupSending::Done(Err(e)),
        _ => GroupSending::Own(sig, at),
    }
}

/// Where the signal goes once an associate has come so far with it.
pub open spec fn associate_settled(
    handle: HandleView,
    i: usize,
    sig: Signal,
    at: Sending,
) -> GroupSending {
    match at {
        Sending::Done(Ok(())) => handle.next_associate(i + 1, sig),
        Sending::Done(Err(e)) => GroupSending::Done(Err(e)),
        _ => GroupSending::Associate(i, sig, at),
    }
}

/// Of a handle and its associates, nothing changed but one associate.
pub open spec fn only_associate_changed(before: HandleView, after: HandleView, i: int) -> bool {
    &&& after == (HandleView { associated: after.associated, ..before })
    &&& after.associated.len() == before.associated.len()
    &&& forall|j: int|
        0 <= j < before.associated.len() && j != i ==> after.associated[j] == before.associated[j]
}

/// The place of the first handle of this name, from a place on.
pub open spec fn named_from(list: Seq<Handle>, name: Seq<char>, i: int) -> Option<int>
    decreases list.len() - i,
{
    if i < 0 || i >= list.len() {
        None
    } else if list[i]@.name == name {
        Some(i)
    } else {
        named_from(list, name, i + 1)
    }
}

/// The place of the first handle of this name.
pub open spec fn associate_named(list: Seq<Handle>, name: Seq<char>) -> Option<int> {
    named_from(list, name, 0)
}

/// The text is what a read of everything gives.
pub open spec fn is_all(
    text: Result<String, Error>,
    waited: Result<i32, Error>,
    stream: Option<Stream>,
    rest: Seq<u8>,
    joined: bool,
) -> bool {
    match waited {
        Err(e) => text == Err::<String, Error>(e),
        Ok(_) => match stream {
            None => text == Err::<String, Error>(Error::NoFile),
            Some(s) => if s@.working && !joined {
                text == Err::<String, Error>(Error::Child)
            } else {
                text matches Ok(t) && t@ == lossy(s@.buffer + rest) && (valid_utf8(
                    s@.buffer + rest,
                ) ==> t@ == decode_utf8(s@.buffer + rest))
            },
        },
    }
}

/// Reads everything from a stream, if there is one.
fn all_of(stream: Option<Stream>, rest: &[u8], joined: bool) -> (text: Result<String, Error>)
    ensures
        is_all(text, Ok(NO_CODE), stream, rest@, joined),
{
    match stream {
        None => Err(Error::NoFile),
        Some(s) => {
            let mut s = s;
            s.feed(rest);
            s.finish();
            s.read_blocking(joined)
        },
    }
}

// ---------------------------------------------------------------------------
// When a handle goes
// ---------------------------------------------------------------------------

/// A handle without those that go with it.
pub open spec fn alone(handle: HandleView) -> HandleView {
    HandleView { associated: Seq::empty(), ..handle }
}

/// A handle and all that go with it, each alone: itself first, and then, one after the other, its
/// associates with all that go with them.
pub open spec fn flock(handle: Handle) -> Seq<HandleView>
    decreases handle,
{
    seq![alone(handle@)] + flocks(handle@.associated)
}

/// Handles and all that go with them, each alone.
pub open spec fn flocks(list: Seq<Handle>) -> Seq<HandleView>
    decreases list,
{
    if list.len() == 0 {
        Seq::empty()
    } else {
        flocks(list.drop_last()) + flock(list.last())
    }
}

/// A list of handles, seen from outside.
pub open spec fn views(list: Seq<Handle>) -> Seq<HandleView> {
    Seq::new(list.len(), |i: int| list[i]@)
}

/// The end of a handle and of all that go with it: each child that is still there is asked to end
/// and waited for, one after the other, and whatever goes wrong with one does not keep the others.
#[derive(Debug)]
pub struct Teardown {
    /// All that go, each alone.
    members: Vec<Handle>,
    /// Whose turn it is.
    turn: usize,
    /// How far it has come.
    at: Terminating,
}

/// The end of a handle and of all that go with it, seen from outside.
#[verifier::ext_equal]
pub struct TeardownView {
    /// All that go, each alone.
    pub members: Seq<HandleView>,
    /// Whose turn it is.
    pub turn: int,
    /// How far it has come.
    pub at: Terminating,
}

impl View for Teardown {
    type V = TeardownView;

    closed spec fn view(&self) -> TeardownView {
        TeardownView { members: views(self.members@), turn: self.turn as int, at: self.at }
    }
}

/// What a teardown has to be told next.
#[derive(Debug)]
pub enum Going {
    /// Ask about this process, without waiting for it.
    Poll(Pid),
    /// Send it the signal, acting as these users.
    Kill(Pid, Signal, Mode),
    /// Wait for it.
    Reap(Pid),
    /// All are gone.
    Over,
}

/// It is the turn of the first from the `i`th on that has a child, or all have had theirs.
pub open spec fn turn_from(members: Seq<HandleView>, i: int) -> TeardownView
    decreases members.len() - i,
{
    if i < 0 || i >= members.len() {
        TeardownView {
            members,
            turn: members.len() as int,
            at: Terminating::Done(Ended::Absent),
        }
    } else if members[i].child is Some {
        TeardownView { members, turn: i, at: members[i].end() }
    } else {
        turn_from(members, i + 1)
    }
}

impl TeardownView {
    /// What it has to be told next.
    pub open spec fn going(self) -> Going {
        match self.at {
            Terminating::Poll(pid) => Going::Poll(pid),
            Terminating::Repoll(pid) => Going::Poll(pid),
            Terminating::Kill(pid, sig, mode) => Going::Kill(pid, sig, mode),
            Terminating::Reap(pid) => Going::Reap(pid),
            Terminating::Done(_) => Going::Over,
        }
    }

    /// The one whose turn it is has become so, and has come so far: where it is done with, it is
    /// the turn of the next.
    pub open spec fn went_on(self, member: HandleView, at: Terminating) -> TeardownView {
        let members = self.members.update(self.turn, member);
        if at is Done {
            turn_from(members, self.turn + 1)
        } else {
            TeardownView { members, turn: self.turn, at }
        }
    }

    /// It is someone's turn.
    pub open spec fn under_way(self) -> bool {
        0 <= self.turn < self.members.len()
    }

    /// The one whose turn it is.
    pub open spec fn member(self) -> HandleView {
        self.members[self.turn]
    }

    /// The process was looked at.
    pub open spec fn polled(self, status: Result<WaitStatus, Errno>) -> TeardownView {
        self.went_on(
            if self.at is Poll || self.at is Repoll {
                self.member().looked(status)
            } else {
                self.member()
            },
            terminate_polled(self.at, self.member().mode, status),
        )
    }

    /// The signal was sent.
    pub open spec fn sent(self, sent: Result<Result<(), Errno>, UserError>) -> TeardownView {
        self.went_on(
            if self.at is Kill {
                self.member().sent(sent)
            } else {
                self.member()
            },
            terminate_sent(self.at, sent),
        )
    }

    /// The process was waited for.
    pub open spec fn reaped(self, status: Result<WaitStatus, Errno>) -> TeardownView {
        self.went_on(self.member(), terminate_reaped(self.at, status))
    }
}

/// What is worth a warning once one is done with.
pub open spec fn warning_at(at: Terminating) -> Option<Warning> {
    match at {
        Terminating::Done(ended) => ended.warned(),
        _ => None,
    }
}

/// Takes a handle and all that go with it apart.
fn scatter(handle: Handle, list: &mut Vec<Handle>)
    ensures
        views(final(list)@) == views(old(list)@) + flock(handle),
    decreases handle,
{
    let ghost given = handle;
    let ghost all = handle.associated@;
    let mut own = handle;
    let mut rest: Vec<Handle> = Vec::new();
    std::mem::swap(&mut rest, &mut own.associated);
    assert(own@ == alone(given@));
    list.push(own);
    let ghost mut done: int = 0;
    assert(rest@ =~= all.skip(0));
    assert(views(list@) =~= views(old(list)@) + seq![alone(given@)] + flocks(all.take(0)));
    while rest.len() > 0
        invariant
            0 <= done <= all.len(),
            given == handle,
            all == given.associated@,
            rest@ == all.skip(done),
            views(list@) == views(old(list)@) + seq![alone(given@)] + flocks(all.take(done)),
        decreases rest@.len(),
    {
        let next = rest.remove(0);
        proof {
            assert(next == all[done]);
            assert(decreases_to!(given => given.associated@[done]));
        }
        scatter(next, list);
        proof {
            assert(all.take(done + 1).drop_last() =~= all.take(done));
            assert(all.take(done + 1).last() == next);
            done = done + 1;
            assert(rest@ =~= all.skip(done));
            assert(views(list@) =~= views(old(list)@) + seq![alone(given@)] + flocks(
                all.take(done),
            ));
        }
    }
    assert(all.take(done) =~= all);
    assert(views(list@) =~= views(old(list)@) + flock(given));
}

impl Handle {
    /// Lets the handle go, and all that go with it: each child that is still there is asked to end
    /// with `SIGTERM` and waited for, its own first.
    pub fn go(self) -> (teardown: Teardown)
        ensures
            teardown@ == turn_from(flock(self), 0),
    {
        let ghost all = flock(self);
        let mut members: Vec<Handle> = Vec::new();
        assert(views(members@) =~= Seq::empty());
        scatter(self, &mut members);
        assert(views(members@) =~= all);
        let mut teardown = Teardown {
            members,
            turn: 0,
            at: Terminating::Done(Ended::Absent),
        };
        teardown.advance(0);
        teardown
    }
}

impl Teardown {
    /// Gives the turn to the first from here on that has a child.
    fn advance(&mut self, from: usize)
        requires
            from <= old(self)@.members.len(),
        ensures
            final(self)@ == turn_from(old(self)@.members, from as int),
    {
        let ghost all = self@.members;
        let mut i: usize = from;
        while i < self.members.len()
            invariant
                i <= self.members@.len(),
                views(self.members@) == all,
                all == old(self)@.members,
                turn_from(all, i as int) == turn_from(all, from as int),
            decreases self.members@.len() - i,
        {
            match self.members[i].terminate() {
                Terminating::Done(_) => {
                    assert(all[i as int] == self.members@[i as int]@);
                },
                at => {
                    assert(all[i as int] == self.members@[i as int]@);
                    self.turn = i;
                    self.at = at;
                    assert(self@ =~= turn_from(all, i as int));
                    return;
                },
            }
            i += 1;
        }
        self.turn = self.members.len();
        self.at = Terminating::Done(Ended::Absent);
    }

    /// What it has to be told next.
    pub fn going(&self) -> (going: Going)
        ensures
            going == self@.going(),
    {
        match &self.at {
            Terminating::Poll(pid) => Going::Poll(*pid),
            Terminating::Repoll(pid) => Going::Poll(*pid),
            Terminating::Kill(pid, sig, mode) => Going::Kill(*pid, *sig, *mode),
            Terminating::Reap(pid) => Going::Reap(*pid),
            Terminating::Done(_) => Going::Over,
        }
    }

    /// Takes up how far the one whose turn it is has come.
    fn settle(&mut self, at: Terminating) -> (warning: Option<Warning>)
        requires
            old(self)@.under_way(),
        ensures
            final(self)@ == old(self)@.went_on(old(self)@.member(), at),
            warning == warning_at(at),
    {
        assert(self@.members.update(self@.turn, self@.member()) =~= self@.members);
        match at {
            Terminating::Done(ended) => {
                let turn: usize = self.turn;
                assert(turn < self.members.len());
                self.advance(turn + 1);
                ended.warning()
            },
            other => {
                self.at = other;
                None
            },
        }
    }

    /// Takes how far the one whose turn it is has come out.
    fn take(&mut self) -> (at: Terminating)
        ensures
            at == old(self)@.at,
            final(self)@.members == old(self)@.members,
            final(self)@.turn == old(self)@.turn,
    {
        let mut at = Terminating::Done(Ended::Absent);
        std::mem::swap(&mut at, &mut self.at);
        at
    }

    /// Goes on once the process was looked at. What comes back is worth a warning.
    pub fn polled(&mut self, status: Result<WaitStatus, Errno>) -> (warning: Option<Warning>)
        ensures
            old(self)@.under_way() ==> {
                &&& final(self)@ == old(self)@.polled(status)
                &&& warning == warning_at(
                    terminate_polled(old(self)@.at, old(self)@.member().mode, status),
                )
            },
            !old(self)@.under_way() ==> final(self)@ == old(self)@ && warning is None,
    {
        if self.turn >= self.members.len() {
            return None;
        }
        let at = self.take();
        let turn: usize = self.turn;
        assert(self@.members[turn as int] == self.members@[turn as int]@);
        let next = self.members[turn].terminate_polled(at, status);
        assert(self@.member() == self.members@[turn as int]@);
        assert(self@.members =~= old(self)@.members.update(turn as int, self@.member()));
        assert(self@.members.update(turn as int, self@.member()) =~= self@.members);
        self.settle(next)
    }

    /// Goes on once the signal was sent. What comes back is worth a warning.
    pub fn sent(&mut self, sent: Result<Result<(), Errno>, UserError>) -> (warning: Option<Warning>)
        ensures
            old(self)@.under_way() ==> {
                &&& final(self)@ == old(self)@.sent(sent)
                &&& warning == warning_at(terminate_sent(old(self)@.at, sent))
            },
            !old(self)@.under_way() ==> final(self)@ == old(self)@ && warning is None,
    {
        if self.turn >= self.members.len() {
            return None;
        }
        let at = self.take();
        let turn: usize = self.turn;
        assert(self@.members[turn as int] == self.members@[turn as int]@);
        let next = self.members[turn].terminate_sent(at, sent);
        assert(self@.member() == self.members@[turn as int]@);
        assert(self@.members =~= old(self)@.members.update(turn as int, self@.member()));
        assert(self@.members.update(turn as int, self@.member()) =~= self@.members);
        self.settle(next)
    }

    /// Goes on once the process was waited for. What comes back is worth a warning.
    pub fn reaped(&mut self, status: Result<WaitStatus, Errno>) -> (warning: Option<Warning>)
        ensures
            old(self)@.under_way() ==> {
                &&& final(self)@ == old(self)@.reaped(status)
                &&& warning == warning_at(terminate_reaped(old(self)@.at, status))
            },
            !old(self)@.under_way() ==> final(self)@ == old(self)@ && warning is None,
    {
        if self.turn >= self.members.len() {
            return None;
        }
        let at = self.take();
        let turn: usize = self.turn;
        assert(self@.members[turn as int] == self.members@[turn as int]@);
        let next = self.members[turn].terminate_reaped(at, status);
        assert(self@.member() == self.members@[turn as int]@);
        assert(self@.members =~= old(self)@.members.update(turn as int, self@.member()));
        assert(self@.members.update(turn as int, self@.member()) =~= self@.members);
        self.settle(next)
    }
}

// ---------------------------------------------------------------------------
// What holds of every handle
// ---------------------------------------------------------------------------

/// A handle without a child has nothing to ask of the system: whatever is wanted of it is done
/// at once, and a wait gives the exit code that is known.
pub proof fn law_childless_handle_asks_nothing(handle: HandleView, sig: Signal, manner: Manner)
    requires
        handle.child is None,
    ensures
        handle.check() == Alive::Done(Ok(None)),
        handle.send(sig) == Sending::Done(Ok(())),
        handle.end() == Terminating::Done(Ended::Absent),
        handle.end()->Done_0.told() == Ok::<(), Error>(()),
        handle.end()->Done_0.warned() is None,
        handle.await_exit(manner) == Waiting::Done(Ok(handle.exit)),
{
}

/// A handle that gave its child up puts an end to nothing when it goes.
pub proof fn law_detached_child_is_left_alone(handle: HandleView)
    ensures
        handle.childless().end() == Terminating::Done(Ended::Absent),
{
}

/// A wait that ends with an exit code ends with no child left, and the code is kept: whoever
/// waits again is given the same one, at once.
pub proof fn law_wait_settles_the_exit_code(
    handle: HandleView,
    at: Waiting,
    status: Result<WaitStatus, Errno>,
    again: Manner,
)
    ensures
        at is Poll ==> (wait_polled(at, status) matches Waiting::Done(Ok(code)) ==> {
            &&& handle.looked(status).child is None
            &&& handle.looked(status).await_exit(again) == Waiting::Done(Ok(code))
        }),
        at matches Waiting::Reap(_, manner) ==> (wait_reaped(at, status) matches Waiting::Done(
            Ok(code),
        ) ==> {
            &&& handle.reaped(manner, status).child is None
            &&& handle.reaped(manner, status).await_exit(again) == Waiting::Done(Ok(code))
        }),
{
}

/// A reply from the system to a wait.
pub enum Reply {
    /// The child was looked at.
    Polled(Result<WaitStatus, Errno>),
    /// Signals are listened for.
    Listening,
    /// A signal arrived.
    Caught(Signal),
    /// The child was waited for.
    Reaped(Result<WaitStatus, Errno>),
}

/// Where a handle and a wait stand after a reply.
pub open spec fn replied(handle: HandleView, at: Waiting, reply: Reply) -> (HandleView, Waiting) {
    match (at, reply) {
        (Waiting::Poll(_, _), Reply::Polled(status)) => (
            handle.looked(status),
            wait_polled(at, status),
        ),
        (Waiting::Listen(pid, manner), Reply::Listening) => (handle, Waiting::Catch(pid, manner)),
        (Waiting::Catch(_, _), Reply::Caught(signal)) => (handle, wait_caught(at, signal)),
        (Waiting::Reap(_, manner), Reply::Reaped(status)) => (
            handle.reaped(manner, status),
            wait_reaped(at, status),
        ),
        _ => (handle, at),
    }
}

/// Where a handle and a wait stand after any number of replies.
pub open spec fn run(handle: HandleView, at: Waiting, replies: Seq<Reply>) -> (HandleView, Waiting)
    decreases replies.len(),
{
    if replies.len() == 0 {
        (handle, at)
    } else {
        let (h, a) = run(handle, at, replies.drop_last());
        replied(h, a, replies.last())
    }
}

/// However a wait goes, if it ends with an exit code, the handle then has no child and knows that
/// code, and all else about it is as it was.
pub proof fn law_every_wait_settles_the_exit_code(
    handle: HandleView,
    manner: Manner,
    replies: Seq<Reply>,
)
    ensures
        ({
            let (after, at) = run(handle, handle.await_exit(manner), replies);
            &&& at matches Waiting::Done(Ok(code)) ==> after.child is None && after.exit == code
            &&& after.child == handle.child || after.child is None
            &&& after == (HandleView { child: after.child, exit: after.exit, ..handle })
        }),
    decreases replies.len(),
{
    if replies.len() > 0 {
        law_every_wait_settles_the_exit_code(handle, manner, replies.drop_last());
    }
}

/// A wait ends with the child: with the exit code of one that exited, and without one where the
/// child was killed. A blocking wait that finds its child killed only then ends with an error, once
/// it is told that there is no such child.
pub proof fn law_wait_ends_with_the_child(
    pid: Pid,
    manner: Manner,
    code: i32,
    signal: Signal,
    core: bool,
)
    ensures
        wait_reaped(Waiting::Reap(pid, manner), Ok(WaitStatus::Exited(pid, code)))
            == Waiting::Done(Ok::<i32, Error>(code)),
        !(manner is Blocking) ==> wait_reaped(
            Waiting::Reap(pid, manner),
            Ok(WaitStatus::Signaled(pid, signal, core)),
        ) == Waiting::Done(Ok::<i32, Error>(NO_CODE)),
        manner is Blocking ==> wait_reaped(
            wait_reaped(Waiting::Reap(pid, manner), Ok(WaitStatus::Signaled(pid, signal, core))),
            Err(Errno::ECHILD),
        ) == Waiting::Done(Err::<i32, Error>(Error::Comm(Errno::ECHILD))),
        wait_polled(Waiting::Poll(pid, manner), Ok(WaitStatus::Exited(pid, code)))
            == Waiting::Done(Ok::<i32, Error>(code)),
        wait_polled(Waiting::Poll(pid, manner), Ok(WaitStatus::Signaled(pid, signal, core)))
            == Waiting::Done(Ok::<i32, Error>(NO_CODE)),
{
}

/// A blocking wait heeds no signal: it never listens for any.
pub proof fn law_blocking_wait_hears_no_signal(handle: HandleView, replies: Seq<Reply>)
    ensures
        ({
            let (after, at) = run(handle, handle.await_exit(Manner::Blocking), replies);
            &&& !(at is Listen)
            &&& !(at is Catch)
            &&& at matches Waiting::Poll(_, manner) ==> manner is Blocking
            &&& at matches Waiting::Reap(_, manner) ==> manner is Blocking
        }),
    decreases replies.len(),
{
    if replies.len() > 0 {
        law_blocking_wait_hears_no_signal(handle, replies.drop_last());
    }
}

/// No reply from the system gives a handle another child, or touches anything but the child and
/// its exit code.
pub proof fn law_child_only_ever_leaves(
    handle: HandleView,
    status: Result<WaitStatus, Errno>,
    sent: Result<Result<(), Errno>, UserError>,
    manner: Manner,
)
    ensures
        forall|after: HandleView|
            after == handle.looked(status) || after == handle.sent(sent) || after == handle.reaped(
                manner,
                status,
            ) ==> {
                &&& #[trigger] after.child == handle.child || after.child is None
                &&& after == (HandleView { child: after.child, exit: after.exit, ..handle })
            },
{
}

/// The process that a signal is on its way to.
pub open spec fn aim(at: Sending) -> Option<Pid> {
    match at {
        Sending::Poll(pid, _) => Some(pid),
        Sending::Kill(pid, _, _) => Some(pid),
        Sending::Done(_) => None,
    }
}

/// A signal goes to the handle's own child and to no other process, it is the signal that was
/// asked for, it is sent as the users that the child runs as, and only while the child was last
/// seen alive.
pub proof fn law_signal_reaches_only_the_child(
    handle: HandleView,
    sig: Signal,
    status: Result<WaitStatus, Errno>,
)
    ensures
        aim(handle.send(sig)) == handle.child,
        ({
            let next = signal_polled(handle.send(sig), handle.mode, status);
            &&& next matches Sending::Kill(pid, s, mode) ==> {
                &&& handle.looked(status).child == Some(pid)
                &&& s == sig
                &&& mode == handle.mode
                &&& verdict(status) is Alive
            }
            &&& handle.looked(status).child is None ==> next == Sending::Done(Ok(()))
        }),
{
}

/// A child is put an end to with `SIGTERM`, sent to it and to no other process, and whoever asks
/// for it is told of a failure exactly if the child could not be looked at or the signal could
/// not be sent.
pub proof fn law_termination_asks_the_child(
    handle: HandleView,
    status: Result<WaitStatus, Errno>,
    pid: Pid,
)
    requires
        handle.child == Some(pid),
    ensures
        handle.end() == Terminating::Poll(pid),
        verdict(status) is Alive ==> {
            &&& terminate_polled(handle.end(), handle.mode, status) == Terminating::Repoll(pid)
            &&& terminate_polled(Terminating::Repoll(pid), handle.mode, status)
                == Terminating::Kill(pid, Signal::SIGTERM, handle.mode)
        },
        forall|ended: Ended|
            #[trigger] ended.told() is Err <==> ended is Unreachable || ended is Unsent,
{
}

/// Only a timed wait can time out.
pub proof fn law_only_timed_waits_time_out(at: Waiting, signal: Signal)
    ensures
        wait_caught(at, signal) == Waiting::Done(Err::<i32, Error>(Error::Timeout)) && at is Catch
            ==> at->Catch_1 is Timed && signal == Signal::SIGALRM,
{
}

/// A signal to all passes over no associate that has a child: the next to have its turn is the
/// first from there on that has one, and once all have had theirs, none is left that does.
pub proof fn law_signal_group_skips_none(handle: HandleView, i: int, sig: Signal)
    requires
        0 <= i <= handle.associated.len() <= usize::MAX,
    ensures
        match handle.next_associate(i, sig) {
            GroupSending::Associate(k, s, at) => {
                &&& i <= k < handle.associated.len()
                &&& s == sig
                &&& at == handle.associated[k as int]@.send(sig)
                &&& at is Poll
                &&& forall|j: int|
                    i <= j < k ==> (#[trigger] handle.associated[j])@.child is None
            },
            GroupSending::Done(res) => {
                &&& res == Ok::<(), Error>(())
                &&& forall|j: int|
                    i <= j < handle.associated.len() ==> (
                    #[trigger] handle.associated[j])@.child is None
            },
            GroupSending::Own(_, _) => false,
        },
    decreases handle.associated.len() - i,
{
    if i < handle.associated.len() && handle.associated[i]@.child is None {
        law_signal_group_skips_none(handle, i + 1, sig);
    }
}

/// The signals that a signal to all asks to be sent, where every child is alive and every signal is
/// delivered.
pub open spec fn group_asks(handle: HandleView, at: GroupSending, steps: nat) -> Seq<
    (Pid, Signal, Mode),
>
    decreases steps,
{
    if steps == 0 {
        Seq::empty()
    } else {
        let left = (steps - 1) as nat;
        let here = Ok::<WaitStatus, Errno>(WaitStatus::StillAlive);
        let done = Sending::Done(delivery(Ok(Ok(()))));
        match at {
            GroupSending::Own(sig, sending) => match sending {
                Sending::Poll(_, _) => group_asks(
                    handle,
                    own_settled(handle, sig, signal_polled(sending, handle.mode, here)),
                    left,
                ),
                Sending::Kill(pid, s, mode) => seq![(pid, s, mode)] + group_asks(
                    handle,
                    own_settled(handle, sig, done),
                    left,
                ),
                Sending::Done(_) => Seq::empty(),
            },
            GroupSending::Associate(i, sig, sending) => match sending {
                Sending::Poll(_, _) => group_asks(
                    handle,
                    associate_settled(
                        handle,
                        i,
                        sig,
                        signal_polled(sending, handle.associated[i as int]@.mode, here),
                    ),
                    left,
                ),
                Sending::Kill(pid, s, mode) => seq![(pid, s, mode)] + group_asks(
                    handle,
                    associate_settled(handle, i, sig, done),
                    left,
                ),
                Sending::Done(_) => Seq::empty(),
            },
            GroupSending::Done(_) => Seq::empty(),
        }
    }
}

/// The signal that one is to be sent: none where it has no child.
pub open spec fn signal_to(handle: HandleView, sig: Signal) -> Seq<(Pid, Signal, Mode)> {
    match handle.child {
        Some(pid) => seq![(pid, sig, handle.mode)],
        None => Seq::empty(),
    }
}

/// The signals that the associates from the `i`th on are to be sent.
pub open spec fn signals_from(list: Seq<Handle>, sig: Signal, i: int) -> Seq<(Pid, Signal, Mode)>
    decreases list.len() - i,
{
    if i < 0 || i >= list.len() {
        Seq::empty()
    } else {
        signal_to(list[i]@, sig) + signals_from(list, sig, i + 1)
    }
}

proof fn lemma_group_asks(handle: HandleView, sig: Signal, i: int, steps: nat)
    requires
        0 <= i <= handle.associated.len() <= usize::MAX,
        steps >= 2 * (handle.associated.len() - i) + 1,
    ensures
        group_asks(handle, handle.next_associate(i, sig), steps) == signals_from(
            handle.associated,
            sig,
            i,
        ),
    decreases handle.associated.len() - i,
{
    let at = handle.next_associate(i, sig);
    if i < handle.associated.len() {
        let member = handle.associated[i]@;
        match member.child {
            None => {
                lemma_group_asks(handle, sig, i + 1, steps);
                assert(signals_from(handle.associated, sig, i) =~= signals_from(
                    handle.associated,
                    sig,
                    i + 1,
                ));
            },
            Some(pid) => {
                let kill = GroupSending::Associate(
                    i as usize,
                    sig,
                    Sending::Kill(pid, sig, member.mode),
                );
                lemma_group_asks(handle, sig, i + 1, (steps - 2) as nat);
                assert(group_asks(handle, kill, (steps - 1) as nat) =~= seq![
                    (pid, sig, member.mode),
                ] + group_asks(handle, handle.next_associate(i + 1, sig), (steps - 2) as nat));
                assert(group_asks(handle, at, steps) == group_asks(
                    handle,
                    kill,
                    (steps - 1) as nat,
                ));
            },
        }
    }
}

/// A signal to all is sent to the child and then to every associate that has one, to each once, and
/// to no other process: as the users that it runs as.
pub proof fn law_signal_group_reaches_all(handle: HandleView, sig: Signal, steps: nat)
    requires
        handle.associated.len() <= usize::MAX,
        steps >= 2 * handle.associated.len() + 3,
    ensures
        group_asks(handle, own_settled(handle, sig, handle.send(sig)), steps) == signal_to(
            handle,
            sig,
        ) + signals_from(handle.associated, sig, 0),
{
    let all = signals_from(handle.associated, sig, 0);
    match handle.child {
        None => {
            lemma_group_asks(handle, sig, 0, steps);
            assert(signal_to(handle, sig) + all =~= all);
        },
        Some(pid) => {
            let kill = GroupSending::Own(sig, Sending::Kill(pid, sig, handle.mode));
            lemma_group_asks(handle, sig, 0, (steps - 2) as nat);
            assert(group_asks(handle, kill, (steps - 1) as nat) =~= seq![(pid, sig, handle.mode)]
                + group_asks(handle, handle.next_associate(0, sig), (steps - 2) as nat));
        },
    }
}

/// A teardown passes over none that has a child: the next to have its turn is the first from there
/// on that has one, and once all have had theirs, none is left that does.
pub proof fn law_teardown_skips_none(members: Seq<HandleView>, i: int)
    requires
        0 <= i <= members.len(),
    ensures
        ({
            let t = turn_from(members, i);
            &&& t.members == members
            &&& i <= t.turn <= members.len()
            &&& t.going() is Over <==> t.turn == members.len()
            &&& t.under_way() ==> t.member().child is Some && t.at == t.member().end()
            &&& forall|j: int| i <= j < t.turn ==> (#[trigger] members[j]).child is None
        }),
    decreases members.len() - i,
{
    if i < members.len() && members[i].child is None {
        law_teardown_skips_none(members, i + 1);
    }
}

/// Whatever goes wrong with one does not keep a teardown from the others.
pub proof fn law_failure_does_not_stop_a_teardown(
    t: TeardownView,
    status: Result<WaitStatus, Errno>,
    sent: Result<Result<(), Errno>, UserError>,
)
    requires
        t.under_way(),
    ensures
        (t.at is Poll || t.at is Repoll) && verdict(status) is Failed ==> t.polled(status)
            == turn_from(t.members, t.turn + 1),
        t.at is Kill && delivery(sent) is Err ==> t.sent(sent) == turn_from(t.members, t.turn + 1),
        t.at is Reap ==> t.reaped(status) == turn_from(t.members, t.turn + 1),
{
    assert(t.members.update(t.turn, t.member()) =~= t.members);
}

/// All that a teardown asks of the system, where the system can do it all: `alive` says which
/// children are still alive, and every one that is asked to end exits.
pub open spec fn asks(t: TeardownView, alive: spec_fn(Pid) -> bool, steps: nat) -> Seq<Going>
    decreases steps,
{
    if steps == 0 {
        Seq::empty()
    } else {
        let left = (steps - 1) as nat;
        match t.going() {
            Going::Over => Seq::empty(),
            Going::Poll(pid) => seq![t.going()] + asks(
                t.polled(
                    Ok(
                        if alive(pid) {
                            WaitStatus::StillAlive
                        } else {
                            WaitStatus::Exited(pid, 0)
                        },
                    ),
                ),
                alive,
                left,
            ),
            Going::Kill(_, _, _) => seq![t.going()] + asks(t.sent(Ok(Ok(()))), alive, left),
            Going::Reap(pid) => seq![t.going()] + asks(
                t.reaped(Ok(WaitStatus::Exited(pid, 0))),
                alive,
                left,
            ),
        }
    }
}

/// What has to be asked for the end of one: nothing where it has no child, and no more than whether
/// the child is alive where it is not.
pub open spec fn end_of(member: HandleView, alive: spec_fn(Pid) -> bool) -> Seq<Going> {
    match member.child {
        None => Seq::empty(),
        Some(pid) => if alive(pid) {
            seq![
                Going::Poll(pid),
                Going::Poll(pid),
                Going::Kill(pid, Signal::SIGTERM, member.mode),
                Going::Reap(pid),
            ]
        } else {
            seq![Going::Poll(pid)]
        },
    }
}

/// What has to be asked for the end of all from the `i`th on, one after the other.
pub open spec fn ends_from(
    members: Seq<HandleView>,
    alive: spec_fn(Pid) -> bool,
    i: int,
) -> Seq<Going>
    decreases members.len() - i,
{
    if i < 0 || i >= members.len() {
        Seq::empty()
    } else {
        end_of(members[i], alive) + ends_from(members, alive, i + 1)
    }
}

proof fn lemma_ends_from(
    a: Seq<HandleView>,
    b: Seq<HandleView>,
    alive: spec_fn(Pid) -> bool,
    i: int,
)
    requires
        0 <= i,
        a.len() == b.len(),
        forall|j: int| i <= j < a.len() ==> #[trigger] a[j] == b[j],
    ensures
        ends_from(a, alive, i) == ends_from(b, alive, i),
    decreases a.len() - i,
{
    if i < a.len() {
        lemma_ends_from(a, b, alive, i + 1);
    }
}

proof fn lemma_asks(
    members: Seq<HandleView>,
    alive: spec_fn(Pid) -> bool,
    i: int,
    steps: nat,
)
    requires
        0 <= i <= members.len(),
        steps >= 4 * (members.len() - i) + 1,
    ensures
        asks(turn_from(members, i), alive, steps) == ends_from(members, alive, i),
    decreases members.len() - i,
{
    let t = turn_from(members, i);
    if i >= members.len() {
        assert(asks(t, alive, steps) =~= ends_from(members, alive, i));
    } else {
        match members[i].child {
            None => {
                lemma_asks(members, alive, i + 1, steps);
                assert(ends_from(members, alive, i) =~= ends_from(members, alive, i + 1));
            },
            Some(pid) => {
                assert(members.update(i, members[i]) =~= members);
                if alive(pid) {
                    let here = Ok::<WaitStatus, Errno>(WaitStatus::StillAlive);
                    let two = t.polled(here);
                    assert(two == TeardownView { at: Terminating::Repoll(pid), ..t });
                    let three = two.polled(here);
                    assert(three == TeardownView {
                        at: Terminating::Kill(pid, Signal::SIGTERM, members[i].mode),
                        ..t
                    });
                    let four = three.sent(Ok(Ok(())));
                    assert(four == TeardownView { at: Terminating::Reap(pid), ..t });
                    let five = four.reaped(Ok(WaitStatus::Exited(pid, 0)));
                    assert(five == turn_from(members, i + 1));
                    lemma_asks(members, alive, i + 1, (steps - 4) as nat);
                    assert(asks(four, alive, (steps - 3) as nat) =~= seq![Going::Reap(pid)]
                        + ends_from(members, alive, i + 1));
                    assert(asks(three, alive, (steps - 2) as nat) =~= seq![three.going()] + asks(
                        four,
                        alive,
                        (steps - 3) as nat,
                    ));
                    assert(asks(two, alive, (steps - 1) as nat) =~= seq![two.going()] + asks(
                        three,
                        alive,
                        (steps - 2) as nat,
                    ));
                    assert(asks(t, alive, steps) =~= seq![t.going()] + asks(
                        two,
                        alive,
                        (steps - 1) as nat,
                    ));
                    assert(asks(t, alive, steps) =~= ends_from(members, alive, i));
                } else {
                    let left = members.update(i, members[i].gone(0));
                    let next = t.polled(Ok(WaitStatus::Exited(pid, 0)));
                    assert(next == turn_from(left, i + 1));
                    lemma_asks(left, alive, i + 1, (steps - 1) as nat);
                    lemma_ends_from(left, members, alive, i + 1);
                    assert(asks(t, alive, steps) =~= ends_from(members, alive, i));
                }
            },
        }
    }
}

/// A handle that goes puts an end to its own child and then to those of all that go with it: each
/// child that is alive is sent `SIGTERM` and then waited for, and nothing is done to any other.
pub proof fn law_handle_that_goes_ends_all(handle: Handle, alive: spec_fn(Pid) -> bool, steps: nat)
    requires
        steps >= 4 * flock(handle).len() + 1,
    ensures
        asks(turn_from(flock(handle), 0), alive, steps) == ends_from(flock(handle), alive, 0),
        flock(handle).len() > 0,
        flock(handle)[0] == alone(handle@),
        ends_from(flock(handle), alive, 0) == end_of(handle@, alive) + ends_from(
            flock(handle),
            alive,
            1,
        ),
{
    lemma_asks(flock(handle), alive, 0, steps);
}

/// Everyone that goes with an associate goes with the handle, after the handle itself.
pub proof fn law_associates_go_with_their_handle(handle: Handle, i: int, member: HandleView)
    requires
        0 <= i < handle@.associated.len(),
        flock(handle@.associated[i]).contains(member),
    ensures
        flock(handle).skip(1).contains(member),
{
    lemma_flocks(handle@.associated, i, member);
    assert(flock(handle).skip(1) =~= flocks(handle@.associated));
}

proof fn lemma_flocks(list: Seq<Handle>, i: int, member: HandleView)
    requires
        0 <= i < list.len(),
        flock(list[i]).contains(member),
    ensures
        flocks(list).contains(member),
    decreases list.len(),
{
    let init = flocks(list.drop_last());
    let last = flock(list.last());
    if i < list.len() - 1 {
        lemma_flocks(list.drop_last(), i, member);
        let k = choose|k: int| 0 <= k < init.len() && init[k] == member;
        assert(flocks(list)[k] == member);
    } else {
        let k = choose|k: int| 0 <= k < last.len() && last[k] == member;
        assert(flocks(list)[init.len() + k] == member);
    }
}

// ---------------------------------------------------------------------------
// What each reply from the system leads to
// ---------------------------------------------------------------------------

/// A look at a child that is still alive finds it: a check gives it, a signal is sent to it, an end
/// is put to it once it was looked at twice, and a wait goes on, at once for the child where it is
/// blocking and for signals else. The handle stays as it is.
pub proof fn law_child_that_lives_is_found(
    handle: HandleView,
    pid: Pid,
    sig: Signal,
    mode: Mode,
    manner: Manner,
)
    ensures
        ({
            let status = Ok::<WaitStatus, Errno>(WaitStatus::StillAlive);
            &&& handle.looked(status) == handle
            &&& alive_polled(Alive::Poll(pid), status) == Alive::Done(
                Ok::<Option<Pid>, Error>(Some(pid)),
            )
            &&& signal_polled(Sending::Poll(pid, sig), mode, status) == Sending::Kill(
                pid,
                sig,
                mode,
            )
            &&& terminate_polled(Terminating::Poll(pid), mode, status) == Terminating::Repoll(pid)
            &&& terminate_polled(Terminating::Repoll(pid), mode, status) == Terminating::Kill(
                pid,
                Signal::SIGTERM,
                mode,
            )
            &&& wait_polled(Waiting::Poll(pid, Manner::Blocking), status) == Waiting::Reap(
                pid,
                Manner::Blocking,
            )
            &&& manner != Manner::Blocking ==> wait_polled(Waiting::Poll(pid, manner), status)
                == Waiting::Listen(pid, manner)
        }),
{
}

/// A look at a child that exited, was killed or is none of this process any more finds it gone: the
/// handle then has no child, and the exit code is the child's own exactly if it exited. A check
/// finds none, a signal needs no sending, and a wait gives the exit code.
pub proof fn law_child_that_is_gone_is_missed(
    handle: HandleView,
    status: Result<WaitStatus, Errno>,
    code: i32,
    pid: Pid,
    sig: Signal,
    mode: Mode,
    manner: Manner,
)
    requires
        match status {
            Ok(WaitStatus::Exited(_, c)) => c == code,
            Ok(WaitStatus::Signaled(_, _, _)) => code == -1,
            Err(Errno::ECHILD) => code == -1,
            _ => false,
        },
    ensures
        handle.looked(status) == (HandleView { child: None, exit: code, ..handle }),
        alive_polled(Alive::Poll(pid), status) == Alive::Done(Ok::<Option<Pid>, Error>(None)),
        signal_polled(Sending::Poll(pid, sig), mode, status) == Sending::Done(Ok::<(), Error>(())),
        terminate_polled(Terminating::Poll(pid), mode, status) == Terminating::Done(Ended::Absent),
        terminate_polled(Terminating::Repoll(pid), mode, status) == Terminating::Reap(pid),
        wait_polled(Waiting::Poll(pid, manner), status) == Waiting::Done(Ok::<i32, Error>(code)),
{
}

/// A child that cannot be looked at is an error for whoever looks, and the handle stays as it is.
pub proof fn law_look_that_fails_is_told(
    handle: HandleView,
    errno: Errno,
    pid: Pid,
    sig: Signal,
    mode: Mode,
    manner: Manner,
)
    requires
        errno != Errno::ECHILD,
    ensures
        ({
            let status = Err::<WaitStatus, Errno>(errno);
            &&& handle.looked(status) == handle
            &&& alive_polled(Alive::Poll(pid), status) == Alive::Done(
                Err::<Option<Pid>, Error>(Error::Comm(errno)),
            )
            &&& signal_polled(Sending::Poll(pid, sig), mode, status) == Sending::Done(
                Err::<(), Error>(Error::Comm(errno)),
            )
            &&& terminate_polled(Terminating::Poll(pid), mode, status) == Terminating::Done(
                Ended::Unreachable(Error::Comm(errno)),
            )
            &&& terminate_polled(Terminating::Repoll(pid), mode, status) == Terminating::Done(
                Ended::Unsent(pid, Error::Comm(errno)),
            )
            &&& wait_polled(Waiting::Poll(pid, manner), status) == Waiting::Done(
                Err::<i32, Error>(Error::Comm(errno)),
            )
        }),
{
}

/// A child that was stopped, runs again or is traced is looked at again, and the handle stays as it
/// is.
pub proof fn law_child_that_was_stopped_is_looked_at_again(
    handle: HandleView,
    status: WaitStatus,
    pid: Pid,
    sig: Signal,
    mode: Mode,
    manner: Manner,
)
    requires
        status is Stopped || status is PtraceEvent || status is PtraceSyscall || status is Continued,
    ensures
        handle.looked(Ok(status)) == handle,
        alive_polled(Alive::Poll(pid), Ok(status)) == Alive::Poll(pid),
        signal_polled(Sending::Poll(pid, sig), mode, Ok(status)) == Sending::Poll(pid, sig),
        terminate_polled(Terminating::Poll(pid), mode, Ok(status)) == Terminating::Poll(pid),
        terminate_polled(Terminating::Repoll(pid), mode, Ok(status)) == Terminating::Repoll(pid),
        wait_polled(Waiting::Poll(pid, manner), Ok(status)) == Waiting::Poll(pid, manner),
{
}

/// A signal that was sent, or that there was no process for, is done with, and in the latter case
/// the handle has no child any more. Anything else is an error, which says what failed. Whoever put
/// an end to the child waits for it exactly if nothing failed.
pub proof fn law_signal_that_was_sent_is_done_with(
    handle: HandleView,
    errno: Errno,
    user: UserError,
    pid: Pid,
    sig: Signal,
    mode: Mode,
)
    ensures
        delivery(Ok(Ok(()))) == Ok::<(), Error>(()),
        handle.sent(Ok(Ok(()))) == handle,
        terminate_sent(Terminating::Kill(pid, sig, mode), Ok(Ok(()))) == Terminating::Reap(pid),
        delivery(Ok(Err(Errno::ESRCH))) == Ok::<(), Error>(()),
        handle.sent(Ok(Err(Errno::ESRCH))) == (HandleView { child: None, ..handle }),
        terminate_sent(Terminating::Kill(pid, sig, mode), Ok(Err(Errno::ESRCH)))
            == Terminating::Reap(pid),
        errno != Errno::ESRCH ==> {
            &&& delivery(Ok(Err(errno))) == Err::<(), Error>(Error::Comm(errno))
            &&& handle.sent(Ok(Err(errno))) == handle
            &&& terminate_sent(Terminating::Kill(pid, sig, mode), Ok(Err(errno)))
                == Terminating::Done(Ended::Unsent(pid, Error::Comm(errno)))
        },
        delivery(Err(user)) == Err::<(), Error>(Error::User(user)),
        handle.sent(Err(user)) == handle,
        terminate_sent(Terminating::Kill(pid, sig, mode), Err(user)) == Terminating::Done(
            Ended::Unsent(pid, Error::User(user)),
        ),
{
}

/// Every wait that listens for signals asks for its child once it hears of it, be it timed or not.
/// An alarm ends a timed wait, which has run out of time. Every other signal ends the wait.
pub proof fn law_signal_of_the_child_leads_to_it(pid: Pid, manner: Manner, signal: Signal)
    ensures
        wait_caught(Waiting::Catch(pid, manner), Signal::SIGCHLD) == Waiting::Reap(pid, manner),
        wait_caught(Waiting::Catch(pid, Manner::Timed), Signal::SIGALRM) == Waiting::Done(
            Err::<i32, Error>(Error::Timeout),
        ),
        manner != Manner::Timed ==> wait_caught(Waiting::Catch(pid, manner), Signal::SIGALRM)
            == Waiting::Done(Err::<i32, Error>(Error::Signal)),
        signal != Signal::SIGCHLD && signal != Signal::SIGALRM ==> wait_caught(
            Waiting::Catch(pid, manner),
            signal,
        ) == Waiting::Done(Err::<i32, Error>(Error::Signal)),
{
}

/// A child that exited was waited for: the wait gives its exit code, and the handle has that code
/// and no child. One that was killed, or is none of this process any more, has no code of its own,
/// which ends a wait that listens for signals; a blocking one asks for it again where it was killed,
/// and fails where there is none.
pub proof fn law_child_that_was_waited_for_is_gone(
    handle: HandleView,
    pid: Pid,
    other: Pid,
    manner: Manner,
    code: i32,
    signal: Signal,
    core: bool,
)
    ensures
        ({
            let status = Ok::<WaitStatus, Errno>(WaitStatus::Exited(other, code));
            &&& wait_reaped(Waiting::Reap(pid, manner), status) == Waiting::Done(
                Ok::<i32, Error>(code),
            )
            &&& handle.reaped(manner, status) == (HandleView { child: None, exit: code, ..handle })
        }),
        forall|status: Result<WaitStatus, Errno>|
            manner != Manner::Blocking && (status == Ok::<WaitStatus, Errno>(
                WaitStatus::Signaled(other, signal, core),
            ) || status == Err::<WaitStatus, Errno>(Errno::ECHILD)) ==> {
                &&& #[trigger] wait_reaped(Waiting::Reap(pid, manner), status) == Waiting::Done(
                    Ok::<i32, Error>((-1) as i32),
                )
                &&& handle.reaped(manner, status) == (HandleView {
                    child: None,
                    exit: (-1) as i32,
                    ..handle
                })
            },
        ({
            let at = Waiting::Reap(pid, Manner::Blocking);
            let killed = Ok::<WaitStatus, Errno>(WaitStatus::Signaled(other, signal, core));
            let none = Err::<WaitStatus, Errno>(Errno::ECHILD);
            &&& wait_reaped(at, killed) == at
            &&& handle.reaped(Manner::Blocking, killed) == (HandleView { child: None, ..handle })
            &&& wait_reaped(at, none) == Waiting::Done(
                Err::<i32, Error>(Error::Comm(Errno::ECHILD)),
            )
            &&& handle.reaped(Manner::Blocking, none) == handle
        }),
{
}

/// A wait that is told neither of an end nor of a failure goes on, for the next signal or, where it
/// is blocking, for the child; a failure ends it.
pub proof fn law_wait_goes_on_until_the_end(
    handle: HandleView,
    pid: Pid,
    manner: Manner,
    status: WaitStatus,
    errno: Errno,
)
    ensures
        !(status is Exited) && !(status is Signaled) ==> {
            &&& wait_reaped(Waiting::Reap(pid, Manner::Blocking), Ok(status)) == Waiting::Reap(
                pid,
                Manner::Blocking,
            )
            &&& manner != Manner::Blocking ==> wait_reaped(Waiting::Reap(pid, manner), Ok(status))
                == Waiting::Catch(pid, manner)
            &&& handle.reaped(manner, Ok(status)) == (HandleView { child: None, ..handle })
        },
        errno != Errno::ECHILD ==> {
            &&& wait_reaped(Waiting::Reap(pid, manner), Err(errno)) == Waiting::Done(
                Err::<i32, Error>(Error::Comm(errno)),
            )
            &&& handle.reaped(manner, Err(errno)) == handle
        },
{
}

/// Whoever waits for a child that is alive is given the code that it exits with: where signals are
/// listened for, timed or not, once there was word of the child, and where the wait is blocking, at
/// once. The handle then knows the code and has no child, and nothing else about it changed.
pub proof fn law_wait_gives_the_exit_code(
    handle: HandleView,
    pid: Pid,
    other: Pid,
    manner: Manner,
    code: i32,
)
    requires
        handle.child == Some(pid),
    ensures
        manner != Manner::Blocking ==> run(
            handle,
            handle.await_exit(manner),
            seq![
                Reply::Polled(Ok(WaitStatus::StillAlive)),
                Reply::Listening,
                Reply::Caught(Signal::SIGCHLD),
                Reply::Reaped(Ok(WaitStatus::Exited(other, code))),
            ],
        ) == (
            (HandleView { child: None, exit: code, ..handle }),
            Waiting::Done(Ok::<i32, Error>(code)),
        ),
        run(
            handle,
            handle.await_exit(Manner::Blocking),
            seq![
                Reply::Polled(Ok(WaitStatus::StillAlive)),
                Reply::Reaped(Ok(WaitStatus::Exited(other, code))),
            ],
        ) == (
            (HandleView { child: None, exit: code, ..handle }),
            Waiting::Done(Ok::<i32, Error>(code)),
        ),
{
    let alive = Reply::Polled(Ok(WaitStatus::StillAlive));
    let caught = Reply::Caught(Signal::SIGCHLD);
    let exited = Reply::Reaped(Ok(WaitStatus::Exited(other, code)));
    let at = handle.await_exit(manner);
    let none = Seq::<Reply>::empty();
    lemma_run(handle, at, none, alive);
    lemma_run(handle, at, none.push(alive), Reply::Listening);
    lemma_run(handle, at, none.push(alive).push(Reply::Listening), caught);
    lemma_run(handle, at, none.push(alive).push(Reply::Listening).push(caught), exited);
    assert(none.push(alive).push(Reply::Listening).push(caught).push(exited) =~= seq![
        alive,
        Reply::Listening,
        caught,
        exited,
    ]);
    let blocking = handle.await_exit(Manner::Blocking);
    lemma_run(handle, blocking, none, alive);
    lemma_run(handle, blocking, none.push(alive), exited);
    assert(none.push(alive).push(exited) =~= seq![alive, exited]);
}

proof fn lemma_run(handle: HandleView, at: Waiting, replies: Seq<Reply>, last: Reply)
    ensures
        run(handle, at, replies.push(last)) == replied(
            run(handle, at, replies).0,
            run(handle, at, replies).1,
            last,
        ),
{
    assert(replies.push(last).drop_last() =~= replies);
}

/// However long a wait that listens for signals has gone on, word of the child and then its exit end
/// it with the child's code.
pub proof fn law_wait_ends_whenever_the_child_exits(
    handle: HandleView,
    at: Waiting,
    before: Seq<Reply>,
    other: Pid,
    code: i32,
)
    requires
        run(handle, at, before).1 is Catch,
    ensures
        run(
            handle,
            at,
            before.push(Reply::Caught(Signal::SIGCHLD)).push(
                Reply::Reaped(Ok(WaitStatus::Exited(other, code))),
            ),
        ).1 == Waiting::Done(Ok::<i32, Error>(code)),
{
    let caught = Reply::Caught(Signal::SIGCHLD);
    lemma_run(handle, at, before, caught);
    lemma_run(
        handle,
        at,
        before.push(caught),
        Reply::Reaped(Ok(WaitStatus::Exited(other, code))),
    );
}

/// A reply to something other than what was to be done changes nothing, and what is done stays done.
pub proof fn law_stray_reply_changes_nothing(
    alive: Alive,
    sending: Sending,
    ending: Terminating,
    waiting: Waiting,
    mode: Mode,
    status: Result<WaitStatus, Errno>,
    sent: Result<Result<(), Errno>, UserError>,
    signal: Signal,
)
    ensures
        !(alive is Poll) ==> alive_polled(alive, status) == alive,
        !(sending is Poll) ==> signal_polled(sending, mode, status) == sending,
        !(ending is Poll || ending is Repoll) ==> terminate_polled(ending, mode, status) == ending,
        !(ending is Kill) ==> terminate_sent(ending, sent) == ending,
        !(ending is Reap) ==> terminate_reaped(ending, status) == ending,
        !(waiting is Poll) ==> wait_polled(waiting, status) == waiting,
        !(waiting is Catch) ==> wait_caught(waiting, signal) == waiting,
        !(waiting is Reap) ==> wait_reaped(waiting, status) == waiting,
{
}

/// Whatever is wanted of a handle that has a child begins with a look at that child.
pub proof fn law_child_is_looked_at_first(
    handle: HandleView,
    pid: Pid,
    sig: Signal,
    manner: Manner,
)
    requires
        handle.child == Some(pid),
    ensures
        handle.check() == Alive::Poll(pid),
        handle.send(sig) == Sending::Poll(pid, sig),
        handle.end() == Terminating::Poll(pid),
        handle.await_exit(manner) == Waiting::Poll(pid, manner),
{
}

/// A handle whose child is gone has its exit code and no child, one that gave it up has no child,
/// and nothing else about either changed.
pub proof fn law_handle_keeps_all_but_the_child(handle: HandleView, code: i32)
    ensures
        handle.gone(code) == (HandleView { child: None, exit: code, ..handle }),
        handle.childless() == (HandleView { child: None, ..handle }),
{
}

/// Whoever put an end to a child that was waited for is told that all went well, whatever waiting
/// gave; what could not be done is told as it failed. A handle that goes warns of what failed, and
/// of a wait that did.
pub proof fn law_end_is_told_as_it_was(
    pid: Pid,
    status: Result<WaitStatus, Errno>,
    seen: WaitStatus,
    error: Error,
    errno: Errno,
)
    ensures
        terminate_reaped(Terminating::Reap(pid), status) == Terminating::Done(
            Ended::Reaped(pid, status),
        ),
        Ended::Absent.told() == Ok::<(), Error>(()),
        Ended::Reaped(pid, status).told() == Ok::<(), Error>(()),
        Ended::Unreachable(error).told() == Err::<(), Error>(error),
        Ended::Unsent(pid, error).told() == Err::<(), Error>(error),
        Ended::Absent.warned() is None,
        Ended::Reaped(pid, Ok(seen)).warned() is None,
        Ended::Reaped(pid, Err(errno)).warned() == Some(Warning::Wait(pid, errno)),
        Ended::Unreachable(error).warned() == Some(Warning::Unreachable),
        Ended::Unsent(pid, error).warned() == Some(Warning::Terminate(pid, error)),
        forall|ended: Ended| #[trigger]
            warning_at(Terminating::Done(ended)) == ended.warned(),
        forall|at: Terminating| !(at is Done) ==> #[trigger] warning_at(at) is None,
{
}

// ---------------------------------------------------------------------------
// What goes with a handle
// ---------------------------------------------------------------------------

/// A signal to all is the child's until it is done with it; the first error ends it, be it the
/// child's or that of an associate, and an associate that is not done with it keeps its turn.
pub proof fn law_first_error_ends_a_signal_to_all(
    handle: HandleView,
    i: usize,
    sig: Signal,
    at: Sending,
    error: Error,
)
    ensures
        own_settled(handle, sig, Sending::Done(Err(error))) == GroupSending::Done(
            Err::<(), Error>(error),
        ),
        associate_settled(handle, i, sig, Sending::Done(Err(error))) == GroupSending::Done(
            Err::<(), Error>(error),
        ),
        !(at is Done) ==> own_settled(handle, sig, at) == GroupSending::Own(sig, at),
        !(at is Done) ==> associate_settled(handle, i, sig, at) == GroupSending::Associate(
            i,
            sig,
            at,
        ),
{
}

/// Once one has had a signal to all, it is the turn of the first after it that has a child: none in
/// between has one, and it is all over only where none is left that does.
pub proof fn law_signal_to_all_goes_on_after_each(
    handle: HandleView,
    i: usize,
    sig: Signal,
    own: bool,
)
    requires
        handle.associated.len() <= usize::MAX,
        own || i < handle.associated.len(),
    ensures
        ({
            let done = Sending::Done(Ok::<(), Error>(()));
            let next = if own {
                own_settled(handle, sig, done)
            } else {
                associate_settled(handle, i, sig, done)
            };
            let from: int = if own {
                0
            } else {
                i + 1
            };
            match next {
                GroupSending::Associate(k, s, at) => {
                    &&& from <= k < handle.associated.len()
                    &&& s == sig
                    &&& handle.associated[k as int]@.child matches Some(pid) && at == Sending::Poll(
                        pid,
                        sig,
                    )
                    &&& forall|j: int|
                        from <= j < k ==> (#[trigger] handle.associated[j])@.child is None
                },
                GroupSending::Done(res) => {
                    &&& res == Ok::<(), Error>(())
                    &&& forall|j: int|
                        from <= j < handle.associated.len() ==> (
                        #[trigger] handle.associated[j])@.child is None
                },
                GroupSending::Own(_, _) => false,
            }
        }),
{
    law_signal_group_skips_none(
        handle,
        if own {
            0
        } else {
            i + 1
        },
        sig,
    );
}

/// Where only one associate changed, the handle and all its other associates are as they were.
pub proof fn law_others_stay_as_they_were(
    before: HandleView,
    after: HandleView,
    i: int,
    j: int,
)
    requires
        only_associate_changed(before, after, i),
    ensures
        after.name == before.name,
        after.child == before.child,
        after.exit == before.exit,
        after.stdin == before.stdin,
        after.stdout == before.stdout,
        after.stderr == before.stderr,
        after.mode == before.mode,
        after.method == before.method,
        after.associated.len() == before.associated.len(),
        0 <= j < before.associated.len() && j != i ==> after.associated[j] == before.associated[j],
{
}

/// The associate of a name is the first that has it, and there is none exactly if no associate
/// has it.
pub proof fn law_first_of_a_name_is_found(list: Seq<Handle>, name: Seq<char>)
    ensures
        match associate_named(list, name) {
            Some(i) => {
                &&& 0 <= i < list.len()
                &&& list[i]@.name == name
                &&& forall|j: int| 0 <= j < i ==> (#[trigger] list[j])@.name != name
            },
            None => forall|j: int| 0 <= j < list.len() ==> (#[trigger] list[j])@.name != name,
        },
{
    lemma_named_from(list, name, 0);
}

proof fn lemma_named_from(list: Seq<Handle>, name: Seq<char>, i: int)
    requires
        0 <= i,
    ensures
        match named_from(list, name, i) {
            Some(k) => {
                &&& i <= k < list.len()
                &&& list[k]@.name == name
                &&& forall|j: int| i <= j < k ==> (#[trigger] list[j])@.name != name
            },
            None => forall|j: int| i <= j < list.len() ==> (#[trigger] list[j])@.name != name,
        },
    decreases list.len() - i,
{
    if i < list.len() && list[i]@.name != name {
        lemma_named_from(list, name, i + 1);
    }
}

/// A handle has a stream to read from exactly where it was given an end of a pipe: it is read from
/// that end, and nothing has arrived on it yet.
pub proof fn law_stream_is_that_of_its_pipe(stream: Option<Stream>, fd: Option<i32>)
    requires
        opened(stream, fd),
    ensures
        stream is Some <==> fd is Some,
        stream matches Some(s) ==> {
            &&& s@.fd == fd->0
            &&& s@.buffer.len() == 0
            &&& !s@.finished
            &&& s@.working
        },
{
}

/// Reading everything gives the error that waiting gave, if any; an error where there is no stream,
/// or where it could not be read to its end; and else, where it is text, all that had arrived and
/// all that came after it.
pub proof fn law_everything_is_read(
    text: Result<String, Error>,
    waited: Result<i32, Error>,
    stream: Option<Stream>,
    rest: Seq<u8>,
    joined: bool,
    whole: Seq<char>,
)
    requires
        is_all(text, waited, stream, rest, joined),
    ensures
        waited matches Err(e) ==> text == Err::<String, Error>(e),
        waited is Ok && stream is None ==> text == Err::<String, Error>(Error::NoFile),
        waited is Ok && stream is Some && stream->0@.working && !joined ==> text == Err::<
            String,
            Error,
        >(Error::Child),
        waited is Ok && stream is Some && !(stream->0@.working && !joined) ==> {
            &&& text is Ok
            &&& stream->0@.buffer + rest == encode_utf8(whole) ==> text->Ok_0@ == whole
            &&& text->Ok_0@ == lossy(stream->0@.buffer + rest)
        },
{
    encode_utf8_valid_utf8(whole);
    encode_utf8_decode_utf8(whole);
}

/// A handle without those that go with it is the same in all else.
pub proof fn law_handle_alone_is_the_same(handle: HandleView)
    ensures
        alone(handle).associated.len() == 0,
        alone(handle).name == handle.name,
        alone(handle).child == handle.child,
        alone(handle).exit == handle.exit,
        alone(handle).stdin == handle.stdin,
        alone(handle).stdout == handle.stdout,
        alone(handle).stderr == handle.stderr,
        alone(handle).mode == handle.mode,
        alone(handle).method == handle.method,
{
}

/// With a handle go exactly its associates and all that go with them, after the handle itself and in
/// their order: all that go with one list of handles go before all that go with the next.
pub proof fn law_all_go_in_order(handle: Handle, one: Seq<Handle>, next: Seq<Handle>)
    ensures
        flock(handle).len() == flocks(handle@.associated).len() + 1,
        flock(handle)[0] == alone(handle@),
        flock(handle).skip(1) == flocks(handle@.associated),
        flocks(Seq::<Handle>::empty()).len() == 0,
        flocks(seq![handle]) == flock(handle),
        flocks(one + next) == flocks(one) + flocks(next),
    decreases next.len(),
{
    assert(flock(handle).skip(1) =~= flocks(handle@.associated));
    assert(seq![handle].drop_last() =~= Seq::<Handle>::empty());
    assert(flocks(seq![handle]) =~= flocks(Seq::<Handle>::empty()) + flock(handle));
    assert(flocks(seq![handle]) =~= flock(handle));
    if next.len() == 0 {
        assert(one + next =~= one);
        assert(flocks(one) + flocks(next) =~= flocks(one));
    } else {
        law_all_go_in_order(handle, one, next.drop_last());
        assert((one + next).drop_last() =~= one + next.drop_last());
        assert(flocks(one + next) == flocks(one + next.drop_last()) + flock(next.last()));
        assert(flocks(one + next) =~= flocks(one) + flocks(next));
    }
}

/// A list of handles is seen handle by handle.
pub proof fn law_views_are_those_of_the_handles(list: Seq<Handle>, i: int)
    ensures
        views(list).len() == list.len(),
        0 <= i < list.len() ==> views(list)[i] == list[i]@,
{
}

/// A teardown asks of the system what the end of the one whose turn it is asks for, and is over once
/// that is done.
pub proof fn law_teardown_asks_what_the_end_needs(
    t: TeardownView,
    pid: Pid,
    sig: Signal,
    mode: Mode,
)
    ensures
        t.at == Terminating::Poll(pid) ==> t.going() == Going::Poll(pid),
        t.at == Terminating::Repoll(pid) ==> t.going() == Going::Poll(pid),
        t.at == Terminating::Kill(pid, sig, mode) ==> t.going() == Going::Kill(pid, sig, mode),
        t.at == Terminating::Reap(pid) ==> t.going() == Going::Reap(pid),
        t.at is Done ==> t.going() is Over,
        t.under_way() <==> 0 <= t.turn < t.members.len(),
        t.member() == t.members[t.turn],
{
}

/// A teardown takes note of every reply in the one whose turn it is and in no other, and the turn
/// passes on exactly once that one is done with.
pub proof fn law_teardown_takes_note_of_each(
    t: TeardownView,
    status: Result<WaitStatus, Errno>,
    sent: Result<Result<(), Errno>, UserError>,
)
    requires
        t.under_way(),
    ensures
        t.at is Poll || t.at is Repoll ==> {
            let next = terminate_polled(t.at, t.members[t.turn].mode, status);
            &&& t.polled(status).members == t.members.update(
                t.turn,
                t.members[t.turn].looked(status),
            )
            &&& !(next is Done) ==> t.polled(status).turn == t.turn && t.polled(status).at == next
            &&& next is Done ==> t.polled(status).turn > t.turn
        },
        t.at is Kill ==> {
            let next = terminate_sent(t.at, sent);
            &&& t.sent(sent).members == t.members.update(t.turn, t.members[t.turn].sent(sent))
            &&& !(next is Done) ==> t.sent(sent).turn == t.turn && t.sent(sent).at == next
            &&& next is Done ==> t.sent(sent).turn > t.turn
        },
        t.at is Reap ==> t.reaped(status).members == t.members && t.reaped(status).turn > t.turn,
        !(t.at is Poll || t.at is Repoll || t.at is Done) ==> t.polled(status) == t,
        !(t.at is Kill || t.at is Done) ==> t.sent(sent) == t,
        !(t.at is Reap || t.at is Done) ==> t.reaped(status) == t,
{
    let looked = t.members.update(t.turn, t.members[t.turn].looked(status));
    let told = t.members.update(t.turn, t.members[t.turn].sent(sent));
    assert(t.members.update(t.turn, t.members[t.turn]) =~= t.members);
    law_teardown_skips_none(looked, t.turn + 1);
    law_teardown_skips_none(told, t.turn + 1);
    law_teardown_skips_none(t.members, t.turn + 1);
}

} // verus!
