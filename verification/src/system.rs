//! The words in which the library speaks with the operating system: what it asks for is carried
//! out outside, and what came of it is handed back in these types.

use nix::unistd::Pid;
use vstd::prelude::*;

verus! {

/// `nix::unistd::Pid`, the number of a process. The library only carries it.
#[verifier::external_type_specification]
#[verifier::external_body]
pub struct ExPid(Pid);

/// `std::io::Error`, an error of the standard library's input and output. The library only
/// carries it.
#[verifier::external_type_specification]
#[verifier::external_body]
pub struct ExIoError(std::io::Error);

/// `log::Level`, the level of a log message. The library only carries it.
#[verifier::external_type_specification]
#[verifier::external_body]
pub struct ExLevel(log::Level);

/// A signal.
#[derive(Clone, Copy, Debug, PartialEq, Eq, Structural)]
#[allow(clippy::upper_case_acronyms)]
pub enum Signal {
    /// `SIGHUP`
    SIGHUP,
    /// `SIGINT`
    SIGINT,
    /// `SIGQUIT`
    SIGQUIT,
    /// `SIGILL`
    SIGILL,
    /// `SIGTRAP`
    SIGTRAP,
    /// `SIGABRT`
    SIGABRT,
    /// `SIGBUS`
    SIGBUS,
    /// `SIGFPE`
    SIGFPE,
    /// `SIGKILL`
    SIGKILL,
    /// `SIGUSR1`
    SIGUSR1,
    /// `SIGSEGV`
    SIGSEGV,
    /// `SIGUSR2`
    SIGUSR2,
    /// `SIGPIPE`
    SIGPIPE,
    /// `SIGALRM`
    SIGALRM,
    /// `SIGTERM`
    SIGTERM,
    /// `SIGSTKFLT`
    SIGSTKFLT,
    /// `SIGCHLD`
    SIGCHLD,
    /// `SIGCONT`
    SIGCONT,
    /// `SIGSTOP`
    SIGSTOP,
    /// `SIGTSTP`
    SIGTSTP,
    /// `SIGTTIN`
    SIGTTIN,
    /// `SIGTTOU`
    SIGTTOU,
    /// `SIGURG`
    SIGURG,
    /// `SIGXCPU`
    SIGXCPU,
    /// `SIGXFSZ`
    SIGXFSZ,
    /// `SIGVTALRM`
    SIGVTALRM,
    /// `SIGPROF`
    SIGPROF,
    /// `SIGWINCH`
    SIGWINCH,
    /// `SIGIO`
    SIGIO,
    /// `SIGPWR`
    SIGPWR,
    /// `SIGSYS`
    SIGSYS,
}

/// The error number of a failed system call. Two of them mean something to the library.
#[derive(Clone, Copy, Debug, PartialEq, Eq, Structural)]
#[allow(clippy::upper_case_acronyms)]
pub enum Errno {
    /// There is no such child to wait for.
    ECHILD,
    /// There is no such process to send a signal to.
    ESRCH,
    /// Any other error, by its number.
    Other(i32),
}

/// What waiting for a child told about it.
#[derive(Clone, Copy, Debug, PartialEq, Eq)]
pub enum WaitStatus {
    /// The process exited, with this code.
    Exited(Pid, i32),
    /// The process was killed by this signal, and whether it left a core dump.
    Signaled(Pid, Signal, bool),
    /// The process was stopped by this signal.
    Stopped(Pid, Signal),
    /// A traced process was stopped by an event.
    PtraceEvent(Pid, Signal, i32),
    /// A traced process was stopped at a system call.
    PtraceSyscall(Pid),
    /// The process was stopped and runs again.
    Continued(Pid),
    /// Nothing happened to the process since it was last asked about.
    StillAlive,
}

/// On which side of a fork something happened.
#[derive(Clone, Copy, Debug, PartialEq, Eq)]
pub enum ForkResult {
    /// In the parent, which knows the child.
    Parent {
        /// The new process.
        child: Pid,
    },
    /// In the child.
    Child,
}

/// The users that a process acts as.
#[derive(Clone, Copy, Debug, PartialEq, Eq, Structural)]
pub enum Mode {
    /// The real user.
    Real,
    /// The effective user.
    Effective,
    /// The users that the program was started with, *setuid* privilege included.
    Original,
    /// Whatever users the process acts as at the time.
    Existing,
}

/// A failure to act as another user.
#[derive(Clone, Copy, Debug, PartialEq, Eq, Structural)]
pub struct UserError {
    /// What the system said.
    pub errno: Errno,
}

/// One of the three standard streams of a process.
#[derive(Clone, Copy, Debug, PartialEq, Eq, Structural)]
pub enum StdStream {
    /// Standard input.
    Input,
    /// Standard output.
    Output,
    /// Standard error.
    Error,
}

/// How a child is started.
#[derive(Clone, Copy, Debug, PartialEq, Eq, Structural)]
pub enum Method {
    /// As `posix_spawn` does: nothing was asked for that takes a fork.
    PosixSpawn,
    /// By `fork` and `execve`, with work to do in the child in between.
    ForkExec,
}

/// What is known so far of something that may have to wait.
#[derive(Debug, PartialEq, Eq)]
pub enum Progress<T> {
    /// It is there.
    Ready(T),
    /// It is not there yet.
    Pending,
}

} // verus!
