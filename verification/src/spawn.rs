//! Spawn subprocesses with fine-grained control over descriptors, users, capabilities and
//! streams.
//!
//! A [`Spawner`] gathers what is wanted of a child. [`Spawner::spawn`] turns it into a
//! [`Launch`], which says to the last detail what is to be done to start the child, in the
//! parent and in the child itself; once the child runs, [`Launch::handle`] gives the
//! [`Handle`].

use crate::cache::{
    arguments, contents, law_written_arguments_are_read_back, read_arguments, write_contents,
};
use crate::capability::{
    difference, law_capabilities_have_the_kernels_numbers, numbers, set_insert, set_is_empty,
    set_new, Capability,
};
use crate::handle::Handle;
use crate::launch::{
    close_ranges, end_to_keep, is_launch, push_confinement, push_parent_steps, push_stream_steps,
    ChildStep, Launch, ParentStep, Pipes,
};
use crate::store::{
    encoded, environment, handles, handles_get, handles_insert, handles_into, handles_new,
    has_nul_variable, held, inherited, law_every_handle_is_listed_once,
    law_passing_on_is_no_change_when_all_are, law_set_variable_overrides, lists_handles, merged,
    variables, variables_insert, variables_new,
};
use crate::system::{Errno, ForkResult, Method, Mode, StdStream, UserError};
use crate::text::{
    check_all, check_nul, first_nul, from_utf8, has_nul, integer, integer_text,
    law_text_survives_its_bytes, nul_from, str_texts, texts, utf8_text, NulError,
};
use crate::which;
use crate::which::Which;
use dashmap::mapref::one::RefMut;
use dashmap::{DashMap, DashSet};
use std::borrow::Cow;
use vstd::prelude::*;
use vstd::utf8::encode_utf8;

verus! {

/// Errors of a [`Spawner`].
#[derive(Debug)]
pub enum Error {
    /// A text holds a NUL byte, so that the system cannot take it.
    Null(NulError),
    /// The cache was used out of turn.
    Cache(&'static str),
    /// The cache could not be read or written.
    Io(std::io::Error),
    /// A system call failed: on which side of the fork, and in doing what.
    Errno(Option<ForkResult>, &'static str, Errno),
    /// The program could not be found.
    Path(which::Error),
    /// The process could not be forked.
    Fork(Errno),
    /// The users to act as could not be found out or changed.
    User(UserError),
    /// The environment could not be read.
    Environment,
    /// The *SECCOMP* filter could not be set up.
    Seccomp(FilterError),
}

/// Why a spawner could not go on, and what it leaves: the handles that were attached to it, whose
/// children still run.
#[derive(Debug)]
pub struct Refused {
    /// What went wrong.
    pub error: Error,
    /// The handles that were attached.
    pub associated: Vec<Handle>,
}

impl Refused {
    /// This went wrong, and all handles that were attached come back.
    pub open spec fn is_about(self, error: Error, config: Config) -> bool {
        self.error == error && lists_handles(self.associated@, config.associated)
    }
}

/// One instruction of a *SECCOMP* filter.
#[derive(Clone, Copy, Debug, PartialEq, Eq, Structural)]
pub struct Instruction {
    /// What to do.
    pub code: u16,
    /// Where to go on if a test holds.
    pub jt: u8,
    /// Where to go on if it does not.
    pub jf: u8,
    /// The operand.
    pub k: u32,
}

/// A *SECCOMP* filter: the program by which the kernel judges the system calls of a child.
#[derive(Debug, PartialEq, Eq)]
pub struct Filter {
    /// The program.
    pub program: Vec<Instruction>,
}

/// A *SECCOMP* filter could not be set up.
#[derive(Clone, Copy, Debug, PartialEq, Eq, Structural)]
pub struct FilterError {
    /// What the system said.
    pub errno: Errno,
}

/// What to do with a standard stream of the child.
#[derive(Clone, Copy, Debug)]
pub enum StreamMode {
    /// Connect it to the [`Handle`] by a pipe.
    Pipe,
    /// Share that of this process. This is the default.
    Share,
    /// Send it to the log, at this level.
    Log(log::Level),
    /// Discard it.
    Discard,
    /// Connect it to this descriptor.
    Fd(i32),
}

impl Default for StreamMode {
    /// A stream is shared unless something else is wanted.
    fn default() -> (mode: StreamMode)
        ensures
            mode == StreamMode::Share,
    {
        StreamMode::Share
    }
}

/// A stream in this mode needs a pipe.
pub open spec fn needs_pipe(mode: StreamMode) -> bool {
    mode is Pipe || mode is Log
}

/// Whether a stream in this mode needs a pipe.
pub fn cond_pipe(mode: &StreamMode) -> (needed: bool)
    ensures
        needed == needs_pipe(*mode),
{
    match mode {
        StreamMode::Pipe | StreamMode::Log(_) => true,
        _ => false,
    }
}

/// Spawns a child.
#[derive(Debug)]
pub struct Spawner {
    /// The program to run.
    cmd: String,
    /// What the child is called unless it is given a name.
    default_name: String,
    /// The name that the child was given.
    unique_name: Option<String>,
    /// Arguments.
    args: Vec<String>,
    /// What to do with standard input.
    input: StreamMode,
    /// What to do with standard output.
    output: StreamMode,
    /// What to do with standard error.
    error: StreamMode,
    /// Whether the child is given the environment of this process.
    preserve_env: bool,
    /// Whether the child is kept from new privileges.
    no_new_privileges: bool,
    /// Capabilities that the child keeps, by their numbers.
    whitelist: DashSet<u8>,
    /// Variables that are set for the child.
    env: DashMap<String, String>,
    /// Handles that go with that of the child.
    associated: DashMap<String, Handle>,
    /// Where the arguments to be cached begin.
    cache_index: Option<usize>,
    /// Descriptors that the child is given beside its standard streams.
    fds: Vec<i32>,
    /// The users that the child runs as.
    mode: Option<Mode>,
    /// Whether the child is elevated by *Polkit*.
    elevate: bool,
    /// The filter that the child is put under.
    seccomp: Option<Filter>,
    /// The directory that the child runs in.
    dir: Option<String>,
}

/// What is wanted of a child.
#[verifier::ext_equal]
pub struct Config {
    /// The program to run.
    pub cmd: Seq<char>,
    /// What the child is called unless it is given a name.
    pub default_name: Seq<char>,
    /// The name that the child was given.
    pub unique_name: Option<Seq<char>>,
    /// Arguments.
    pub args: Seq<Seq<char>>,
    /// What to do with standard input.
    pub input: StreamMode,
    /// What to do with standard output.
    pub output: StreamMode,
    /// What to do with standard error.
    pub error: StreamMode,
    /// Whether the child is given the environment of this process.
    pub preserve_env: bool,
    /// Whether the child is kept from new privileges.
    pub no_new_privileges: bool,
    /// Capabilities that the child keeps, by their numbers.
    pub whitelist: Set<u8>,
    /// Variables that are set for the child.
    pub env: Map<Seq<char>, Seq<char>>,
    /// Handles that go with that of the child.
    pub associated: Map<Seq<char>, Handle>,
    /// Where the arguments to be cached begin.
    pub cache_index: Option<usize>,
    /// Descriptors that the child is given beside its standard streams.
    pub fds: Seq<i32>,
    /// The users that the child runs as.
    pub mode: Option<Mode>,
    /// Whether the child is elevated by *Polkit*.
    pub elevate: bool,
    /// The filter that the child is put under.
    pub seccomp: Option<Filter>,
    /// The directory that the child runs in.
    pub dir: Option<Seq<char>>,
}

/// A text that may be missing.
pub open spec fn opt_text(text: Option<String>) -> Option<Seq<char>> {
    match text {
        Some(t) => Some(t@),
        None => None,
    }
}

impl View for Spawner {
    type V = Config;

    closed spec fn view(&self) -> Config {
        Config {
            cmd: self.cmd@,
            default_name: self.default_name@,
            unique_name: opt_text(self.unique_name),
            args: texts(self.args@),
            input: self.input,
            output: self.output,
            error: self.error,
            preserve_env: self.preserve_env,
            no_new_privileges: self.no_new_privileges,
            whitelist: numbers(self.whitelist),
            env: variables(self.env),
            associated: handles(self.associated),
            cache_index: self.cache_index,
            fds: self.fds@,
            mode: self.mode,
            elevate: self.elevate,
            seccomp: self.seccomp,
            dir: opt_text(self.dir),
        }
    }
}

/// What is wanted of a child before anything else was said.
pub open spec fn fresh(cmd: Seq<char>, default_name: Seq<char>) -> Config {
    Config {
        cmd,
        default_name,
        unique_name: None,
        args: Seq::empty(),
        input: StreamMode::Share,
        output: StreamMode::Share,
        error: StreamMode::Share,
        preserve_env: false,
        no_new_privileges: true,
        whitelist: Set::empty(),
        env: Map::empty(),
        associated: Map::empty(),
        cache_index: None,
        fds: Seq::empty(),
        mode: None,
        elevate: false,
        seccomp: None,
        dir: None,
    }
}

/// The numbers of a list of capabilities, added to others.
pub open spec fn with_caps(set: Set<u8>, caps: Seq<Capability>) -> Set<u8>
    decreases caps.len(),
{
    if caps.len() == 0 {
        set
    } else {
        with_caps(set, caps.drop_last()).insert(caps.last().number())
    }
}

impl Config {
    /// The spawner once a variable was set for the child.
    pub open spec fn with_env(self, key: Seq<char>, value: Seq<char>) -> Config {
        Config { env: self.env.insert(key, value), ..self }
    }

    /// The spawner once arguments were added.
    pub open spec fn with_args(self, more: Seq<Seq<char>>) -> Config {
        Config { args: self.args + more, ..self }
    }

    /// How a child of this spawner is started.
    pub open spec fn method(self) -> Method {
        if self.no_new_privileges && self.whitelist == (Set::<u8>::empty()) && self.dir is None
            && self.fds.len() == 0 && self.seccomp is None && self.mode is None {
            Method::PosixSpawn
        } else {
            Method::ForkExec
        }
    }

    /// The variables of a child of this spawner, where these are those of this process.
    pub open spec fn environment(self, vars: Seq<(Vec<u8>, Vec<u8>)>) -> Map<Seq<u8>, Seq<u8>> {
        if self.preserve_env {
            merged(self.env, vars)
        } else {
            encoded(self.env)
        }
    }

    /// What the child is called.
    pub open spec fn name(self) -> Seq<char> {
        match self.unique_name {
            Some(name) => name,
            None => self.default_name,
        }
    }

    /// The arguments that are to be cached.
    pub open spec fn cached(self) -> Seq<Seq<char>> {
        match self.cache_index {
            Some(i) => if i <= self.args.len() {
                self.args.skip(i as int)
            } else {
                Seq::empty()
            },
            None => Seq::empty(),
        }
    }
}

/// What a variable is passed on as: the value that this process has for it, where it has one
/// that is UTF-8.
pub open spec fn looked_up(found: Option<Vec<u8>>) -> Option<Seq<char>> {
    match found {
        Some(bytes) => utf8_text(bytes@),
        None => None,
    }
}

impl Spawner {
    /// A spawner of the program that a command names. `found` is what looking for it with
    /// [`which::SpawnWhich`] gave.
    ///
    /// ## Errors
    /// [`Error::Path`] if it was not found.
    pub fn new(cmd: &str, found: Result<String, which::Error>) -> (res: Result<Self, Error>)
        ensures
            match found {
                Ok(path) => res matches Ok(s) && s@ == fresh(path@, cmd@),
                Err(e) => res == Err::<Spawner, Error>(Error::Path(e)),
            },
    {
        match found {
            Ok(path) => Ok(Self::named(path, cmd)),
            Err(e) => Err(Error::Path(e)),
        }
    }

    /// A spawner of the program that a command names, found by a resolver of one's own.
    ///
    /// ## Errors
    /// [`Error::Path`] if it was not found.
    pub fn which<W: Which>(cmd: &str) -> (res: Result<Self, Error>)
        ensures
            exists|found: Result<Cow<'_, str>, which::Error>|
                {
                    &&& #[trigger] call_ensures(W::which, (cmd,), found)
                    &&& match found {
                        Ok(path) => res matches Ok(s) && s@ == fresh(path@, cmd@),
                        Err(e) => res == Err::<Spawner, Error>(Error::Path(e)),
                    }
                },
    {
        let found = W::which(cmd);
        let ghost given = found;
        let res = match found {
            Ok(Cow::Borrowed(path)) => Ok(Self::named(path.to_owned(), cmd)),
            Ok(Cow::Owned(path)) => Ok(Self::named(path, cmd)),
            Err(e) => Err(Error::Path(e)),
        };
        assert(call_ensures(W::which, (cmd,), given));
        res
    }

    /// A spawner of the program of this path, which is taken as it stands.
    pub fn abs(cmd: &str) -> (spawner: Self)
        ensures
            spawner@ == fresh(cmd@, cmd@),
    {
        Self::named(cmd.to_owned(), cmd)
    }

    /// A spawner of this program, whose child is called so unless it is given a name.
    fn named(cmd: String, default_name: &str) -> (spawner: Self)
        ensures
            spawner@ == fresh(cmd@, default_name@),
    {
        let spawner = Spawner {
            cmd,
            default_name: default_name.to_owned(),
            unique_name: None,
            args: Vec::new(),
            input: StreamMode::Share,
            output: StreamMode::Share,
            error: StreamMode::Share,
            preserve_env: false,
            no_new_privileges: true,
            whitelist: set_new(),
            env: variables_new(),
            associated: handles_new(),
            cache_index: None,
            fds: Vec::new(),
            mode: None,
            elevate: false,
            seccomp: None,
            dir: None,
        };
        assert(spawner@ =~= fresh(cmd@, default_name@));
        spawner
    }

    // -----------------------------------------------------------------------
    // What is wanted of the child
    // -----------------------------------------------------------------------

    /// Sets what to do with the child's standard input.
    pub fn input_i(&mut self, input: StreamMode)
        ensures
            final(self)@ == (Config { input, ..old(self)@ }),
    {
        self.input = input;
    }

    /// Sets what to do with the child's standard input.
    #[must_use]
    pub fn input(self, input: StreamMode) -> (spawner: Self)
        ensures
            spawner@ == (Config { input, ..self@ }),
    {
        let mut spawner = self;
        spawner.input_i(input);
        spawner
    }

    /// Sets what to do with the child's standard output.
    pub fn output_i(&mut self, output: StreamMode)
        ensures
            final(self)@ == (Config { output, ..old(self)@ }),
    {
        self.output = output;
    }

    /// Sets what to do with the child's standard output.
    #[must_use]
    pub fn output(self, output: StreamMode) -> (spawner: Self)
        ensures
            spawner@ == (Config { output, ..self@ }),
    {
        let mut spawner = self;
        spawner.output_i(output);
        spawner
    }

    /// Sets what to do with the child's standard error.
    pub fn error_i(&mut self, error: StreamMode)
        ensures
            final(self)@ == (Config { error, ..old(self)@ }),
    {
        self.error = error;
    }

    /// Sets what to do with the child's standard error.
    #[must_use]
    pub fn error(self, error: StreamMode) -> (spawner: Self)
        ensures
            spawner@ == (Config { error, ..self@ }),
    {
        let mut spawner = self;
        spawner.error_i(error);
        spawner
    }

    /// Gives the child a name, by which its handle can be found. Without one it is called what
    /// was given to [`Spawner::new`].
    #[must_use]
    pub fn name(self, name: &str) -> (spawner: Self)
        ensures
            spawner@ == (Config { unique_name: Some(name@), ..self@ }),
    {
        let mut spawner = self;
        spawner.unique_name = Some(name.to_owned());
        spawner
    }

    /// Attaches another process to the child: it goes when the child's handle goes. One of the
    /// same name that was attached before is replaced, and comes back.
    pub fn associate(&mut self, process: Handle) -> (replaced: Option<Handle>)
        ensures
            replaced == (if old(self)@.associated.dom().contains(process@.name) {
                Some(old(self)@.associated[process@.name])
            } else {
                None
            }),
            final(self)@ == (Config {
                associated: old(self)@.associated.insert(process@.name, process),
                ..old(self)@
            }),
    {
        let name = process.name().to_owned();
        handles_insert(&mut self.associated, name, process)
    }

    /// Gives the spawner up. The handles that were attached to it come back.
    pub fn into_associates(self) -> (list: Vec<Handle>)
        ensures
            lists_handles(list@, self@.associated),
    {
        handles_into(self.associated)
    }

    /// Access to the associate of this name, if there is one. Nothing else of the spawner can
    /// change through it.
    pub fn get_associate<'b>(&'b mut self, name: &str) -> (found: Option<
        RefMut<'b, String, Handle>,
    >)
        ensures
            found is Some <==> old(self)@.associated.dom().contains(name@),
            found matches Some(guard) ==> held(guard) == old(self)@.associated[name@],
            found is None ==> final(self)@ == old(self)@,
            final(self)@.associated.dom() == old(self)@.associated.dom(),
            final(self)@.associated.remove(name@) == old(self)@.associated.remove(name@),
            final(self)@ == (Config { associated: final(self)@.associated, ..old(self)@ }),
    {
        handles_get(&mut self.associated, name)
    }

    /// Sets the users that the child runs as.
    pub fn mode_i(&mut self, mode: Mode)
        ensures
            final(self)@ == (Config { mode: Some(mode), ..old(self)@ }),
    {
        self.mode = Some(mode);
    }

    /// Drops the child's privilege to these users as soon as it runs, so that it cannot become
    /// any others. This process is not affected.
    ///
    /// With [`Mode::Original`] the child has the same users as this process, *setuid* privilege
    /// included. With [`Mode::Existing`], or none, it has those that this process acts as when
    /// it is spawned, which is ill-advised. Where this process is not *setuid* it makes no
    /// difference.
    #[must_use]
    pub fn mode(self, mode: Mode) -> (spawner: Self)
        ensures
            spawner@ == (Config { mode: Some(mode), ..self@ }),
    {
        let mut spawner = self;
        spawner.mode_i(mode);
        spawner
    }

    /// Sets whether the child is elevated to root by *Polkit*.
    pub fn elevate_i(&mut self, elevate: bool)
        ensures
            final(self)@ == (Config { elevate, ..old(self)@ }),
    {
        self.elevate = elevate;
    }

    /// Sets whether the child is elevated to root by *Polkit*.
    #[must_use]
    pub fn elevate(self, elevate: bool) -> (spawner: Self)
        ensures
            spawner@ == (Config { elevate, ..self@ }),
    {
        let mut spawner = self;
        spawner.elevate_i(elevate);
        spawner
    }

    /// Sets whether the child is given the environment of this process, byte for byte except where
    /// a variable is set for it. By default it is not.
    pub fn preserve_env_i(&mut self, preserve: bool)
        ensures
            final(self)@ == (Config { preserve_env: preserve, ..old(self)@ }),
    {
        self.preserve_env = preserve;
    }

    /// Sets whether the child is given the environment of this process, byte for byte except where
    /// a variable is set for it. By default it is not.
    #[must_use]
    pub fn preserve_env(self, preserve: bool) -> (spawner: Self)
        ensures
            spawner@ == (Config { preserve_env: preserve, ..self@ }),
    {
        let mut spawner = self;
        spawner.preserve_env_i(preserve);
        spawner
    }

    /// Lets the child keep a capability. It cannot be given one that this process does not have.
    pub fn cap_i(&mut self, cap: Capability)
        ensures
            final(self)@ == (Config { whitelist: old(self)@.whitelist.insert(cap.number()), ..old(self)@ }),
    {
        set_insert(&mut self.whitelist, cap.index());
    }

    /// Lets the child keep a capability. It cannot be given one that this process does not have.
    #[must_use]
    pub fn cap(self, cap: Capability) -> (spawner: Self)
        ensures
            spawner@ == (Config { whitelist: self@.whitelist.insert(cap.number()), ..self@ }),
    {
        let mut spawner = self;
        spawner.cap_i(cap);
        spawner
    }

    /// Lets the child keep capabilities. It cannot be given any that this process does not have.
    pub fn caps_i(&mut self, caps: &[Capability])
        ensures
            final(self)@ == (Config {
                whitelist: with_caps(old(self)@.whitelist, caps@),
                ..old(self)@
            }),
            forall|c: u8| #[trigger]
                final(self)@.whitelist.contains(c) <==> old(self)@.whitelist.contains(c) || exists|
                    i: int,
                |
                    0 <= i < caps@.len() && (#[trigger] caps@[i]).number() == c,
    {
        let mut i: usize = 0;
        while i < caps.len()
            invariant
                i <= caps@.len(),
                self@ == (Config {
                    whitelist: with_caps(old(self)@.whitelist, caps@.take(i as int)),
                    ..old(self)@
                }),
            decreases caps@.len() - i,
        {
            self.cap_i(caps[i]);
            assert(caps@.take(i + 1).drop_last() =~= caps@.take(i as int));
            i += 1;
        }
        assert(caps@.take(i as int) =~= caps@);
        assert forall|c: u8| #[trigger]
            self@.whitelist.contains(c) <==> old(self)@.whitelist.contains(c) || exists|k: int|
                0 <= k < caps@.len() && (#[trigger] caps@[k]).number() == c by {
            law_capabilities_of_the_list_are_kept(old(self)@.whitelist, caps@, c);
        }
    }

    /// Lets the child keep capabilities. It cannot be given any that this process does not have.
    #[must_use]
    pub fn caps(self, caps: &[Capability]) -> (spawner: Self)
        ensures
            spawner@ == (Config { whitelist: with_caps(self@.whitelist, caps@), ..self@ }),
            forall|c: u8| #[trigger]
                spawner@.whitelist.contains(c) <==> self@.whitelist.contains(c) || exists|i: int|
                    0 <= i < caps@.len() && (#[trigger] caps@[i]).number() == c,
    {
        let mut spawner = self;
        spawner.caps_i(caps);
        spawner
    }

    /// Sets whether the child may gain privileges that this process does not have.
    pub fn new_privileges_i(&mut self, allow: bool)
        ensures
            final(self)@ == (Config { no_new_privileges: !allow, ..old(self)@ }),
    {
        self.no_new_privileges = !allow;
    }

    /// Sets whether the child may gain privileges that this process does not have.
    #[must_use]
    pub fn new_privileges(self, allow: bool) -> (spawner: Self)
        ensures
            spawner@ == (Config { no_new_privileges: !allow, ..self@ }),
    {
        let mut spawner = self;
        spawner.new_privileges_i(allow);
        spawner
    }

    /// Sets a variable for the child. It has this value also where the environment of this
    /// process is preserved. One that the system cannot take is refused by [`Spawner::spawn`].
    pub fn env_i(&mut self, key: &str, value: &str)
        ensures
            final(self)@ == old(self)@.with_env(key@, value@),
    {
        variables_insert(&mut self.env, key.to_owned(), value.to_owned());
    }

    /// Sets a variable for the child. It has this value also where the environment of this
    /// process is preserved. One that the system cannot take is refused by [`Spawner::spawn`].
    #[must_use]
    pub fn env(self, key: &str, value: &str) -> (spawner: Self)
        ensures
            spawner@ == self@.with_env(key@, value@),
    {
        let mut spawner = self;
        spawner.env_i(key, value);
        spawner
    }

    /// Passes a variable of this process on to the child. `found` is what this process has for
    /// it, if anything.
    ///
    /// ## Errors
    /// [`Error::Environment`] if the system cannot take its name or its value, or there is no
    /// such variable, or its value is not UTF-8.
    pub fn pass_env_i(&mut self, key: &str, found: Option<Vec<u8>>) -> (res: Result<(), Error>)
        ensures
            match looked_up(found) {
                Some(value) => if has_nul(key@) || has_nul(value) {
                    res == Err::<(), Error>(Error::Environment) && final(self)@ == old(self)@
                } else {
                    res == Ok::<(), Error>(()) && final(self)@ == old(self)@.with_env(key@, value)
                },
                None => res == Err::<(), Error>(Error::Environment) && final(self)@
                    == old(self)@,
            },
            forall|value: Seq<char>|
                found is Some && found->0@ == #[trigger] encode_utf8(value) && !key@.contains('\0')
                    && !value.contains('\0') ==> res is Ok && final(self)@.env == old(
                    self,
                )@.env.insert(key@, value),
    {
        proof {
            assert forall|value: Seq<char>|
                found is Some && found->0@ == #[trigger] encode_utf8(
                    value,
                ) implies looked_up(found) == Some(value) by {
                law_value_is_passed_on_whole(found, value);
            }
        }
        let value = match found {
            Some(bytes) => from_utf8(bytes.as_slice()),
            None => None,
        };
        match value {
            Some(value) => {
                if check_nul(key).is_err() || check_nul(value.as_str()).is_err() {
                    Err(Error::Environment)
                } else {
                    self.env_i(key, value.as_str());
                    Ok(())
                }
            },
            None => Err(Error::Environment),
        }
    }

    /// Passes a variable of this process on to the child. `found` is what this process has for
    /// it, if anything.
    ///
    /// ## Errors
    /// As for [`Spawner::pass_env_i`].
    pub fn pass_env(self, key: &str, found: Option<Vec<u8>>) -> (res: Result<Self, Refused>)
        ensures
            match looked_up(found) {
                Some(value) => if has_nul(key@) || has_nul(value) {
                    res matches Err(r) && r.is_about(Error::Environment, self@)
                } else {
                    res matches Ok(spawner) && spawner@ == self@.with_env(key@, value)
                },
                None => res matches Err(r) && r.is_about(Error::Environment, self@),
            },
    {
        let mut spawner = self;
        match spawner.pass_env_i(key, found) {
            Ok(()) => Ok(spawner),
            Err(error) => Err(Refused { error, associated: spawner.into_associates() }),
        }
    }

    /// Passes a variable of this process on to the child, or sets it to `fallback` where this
    /// process has none that is UTF-8. `found` is what it has, if anything.
    ///
    /// ## Errors
    /// [`Error::Environment`] if the system cannot take the variable's name or its value.
    pub fn env_or_i(&mut self, key: &str, fallback: &str, found: Option<Vec<u8>>) -> (res: Result<
        (),
        Error,
    >)
        ensures
            ({
                let value = match looked_up(found) {
                    Some(value) => value,
                    None => fallback@,
                };
                if has_nul(key@) || has_nul(value) {
                    res == Err::<(), Error>(Error::Environment) && final(self)@ == old(self)@
                } else {
                    res == Ok::<(), Error>(()) && final(self)@ == old(self)@.with_env(key@, value)
                }
            }),
            forall|value: Seq<char>|
                found is Some && found->0@ == #[trigger] encode_utf8(value) && !key@.contains('\0')
                    && !value.contains('\0') ==> res is Ok && final(self)@.env == old(
                    self,
                )@.env.insert(key@, value),
            found is None && !key@.contains('\0') && !fallback@.contains('\0') ==> res is Ok
                && final(self)@.env == old(self)@.env.insert(key@, fallback@),
    {
        proof {
            assert forall|value: Seq<char>|
                found is Some && found->0@ == #[trigger] encode_utf8(
                    value,
                ) implies looked_up(found) == Some(value) by {
                law_value_is_passed_on_whole(found, value);
            }
        }
        let value = match found {
            Some(bytes) => from_utf8(bytes.as_slice()),
            None => None,
        };
        let value = match value {
            Some(value) => value,
            None => fallback.to_owned(),
        };
        if check_nul(key).is_err() || check_nul(value.as_str()).is_err() {
            Err(Error::Environment)
        } else {
            self.env_i(key, value.as_str());
            Ok(())
        }
    }

    /// Passes a variable of this process on to the child, or sets it to `fallback` where this
    /// process has none that is UTF-8. `found` is what it has, if anything.
    ///
    /// ## Errors
    /// As for [`Spawner::env_or_i`].
    pub fn env_or(self, key: &str, fallback: &str, found: Option<Vec<u8>>) -> (res: Result<
        Self,
        Refused,
    >)
        ensures
            ({
                let value = match looked_up(found) {
                    Some(value) => value,
                    None => fallback@,
                };
                if has_nul(key@) || has_nul(value) {
                    res matches Err(r) && r.is_about(Error::Environment, self@)
                } else {
                    res matches Ok(spawner) && spawner@ == self@.with_env(key@, value)
                }
            }),
    {
        let mut spawner = self;
        match spawner.env_or_i(key, fallback, found) {
            Ok(()) => Ok(spawner),
            Err(error) => Err(Refused { error, associated: spawner.into_associates() }),
        }
    }

    /// Puts the child under a *SECCOMP* filter.
    pub fn seccomp_i(&mut self, seccomp: Filter)
        ensures
            final(self)@ == (Config { seccomp: Some(seccomp), ..old(self)@ }),
    {
        self.seccomp = Some(seccomp);
    }

    /// Puts the child under a *SECCOMP* filter. It is the last thing done before the program
    /// runs, so the users that the child runs as must be allowed to load it, and it must permit
    /// `execve`.
    #[must_use]
    pub fn seccomp(self, seccomp: Filter) -> (spawner: Self)
        ensures
            spawner@ == (Config { seccomp: Some(seccomp), ..self@ }),
    {
        let mut spawner = self;
        spawner.seccomp_i(seccomp);
        spawner
    }

    /// Sets the directory that the child runs in. That of this process is not affected. One that
    /// the system cannot take is refused by [`Spawner::spawn`].
    pub fn dir_i(&mut self, dir: &str)
        ensures
            final(self)@ == (Config { dir: Some(dir@), ..old(self)@ }),
    {
        self.dir = Some(dir.to_owned());
    }

    /// Sets the directory that the child runs in. That of this process is not affected. One that
    /// the system cannot take is refused by [`Spawner::spawn`].
    #[must_use]
    pub fn dir(self, dir: &str) -> (spawner: Self)
        ensures
            spawner@ == (Config { dir: Some(dir@), ..self@ }),
    {
        let mut spawner = self;
        spawner.dir_i(dir);
        spawner
    }

    // -----------------------------------------------------------------------
    // Arguments and descriptors
    // -----------------------------------------------------------------------

    /// Adds an argument at the end.
    pub fn arg_i(&mut self, arg: &str)
        ensures
            final(self)@ == old(self)@.with_args(seq![arg@]),
    {
        self.args.push(arg.to_owned());
        assert(self@ =~= old(self)@.with_args(seq![arg@]));
    }

    /// Adds an argument at the end.
    #[must_use]
    pub fn arg(self, arg: &str) -> (spawner: Self)
        ensures
            spawner@ == self@.with_args(seq![arg@]),
    {
        let mut spawner = self;
        spawner.arg_i(arg);
        spawner
    }

    /// Adds arguments at the end, in order.
    pub fn args_i(&mut self, args: &[&str])
        ensures
            final(self)@ == old(self)@.with_args(str_texts(args@)),
    {
        let mut i: usize = 0;
        assert(self@ =~= old(self)@.with_args(str_texts(args@).take(0)));
        while i < args.len()
            invariant
                i <= args@.len(),
                self@ == old(self)@.with_args(str_texts(args@).take(i as int)),
            decreases args@.len() - i,
        {
            self.arg_i(args[i]);
            assert(str_texts(args@).take(i + 1) =~= str_texts(args@).take(i as int)
                + seq![args@[i as int]@]);
            assert(self@ =~= old(self)@.with_args(str_texts(args@).take(i + 1)));
            i += 1;
        }
        assert(str_texts(args@).take(i as int) =~= str_texts(args@));
    }

    /// Adds arguments at the end, in order.
    #[must_use]
    pub fn args(self, args: &[&str]) -> (spawner: Self)
        ensures
            spawner@ == self@.with_args(str_texts(args@)),
    {
        let mut spawner = self;
        spawner.args_i(args);
        spawner
    }

    /// Gives the child a descriptor, under the same number. All that are not given to it are
    /// closed to it.
    pub fn fd_i(&mut self, fd: i32)
        ensures
            final(self)@ == (Config { fds: old(self)@.fds.push(fd), ..old(self)@ }),
    {
        self.fds.push(fd);
    }

    /// Gives the child a descriptor, under the same number. All that are not given to it are
    /// closed to it.
    #[must_use]
    pub fn fd(self, fd: i32) -> (spawner: Self)
        ensures
            spawner@ == (Config { fds: self@.fds.push(fd), ..self@ }),
    {
        let mut spawner = self;
        spawner.fd_i(fd);
        spawner
    }

    /// Gives the child a descriptor, and adds an argument and the number of the descriptor after
    /// it, so that the two cannot differ.
    pub fn fd_arg_i(&mut self, arg: &str, fd: i32)
        ensures
            final(self)@ == (Config {
                args: old(self)@.args + seq![arg@, integer(fd as int)],
                fds: old(self)@.fds.push(fd),
                ..old(self)@
            }),
    {
        let number = integer_text(fd);
        self.arg_i(arg);
        self.arg_i(number.as_str());
        self.fd_i(fd);
        assert(self@.args =~= old(self)@.args + seq![arg@, integer(fd as int)]);
    }

    /// Gives the child a descriptor, and adds an argument and the number of the descriptor after
    /// it, so that the two cannot differ.
    #[must_use]
    pub fn fd_arg(self, arg: &str, fd: i32) -> (spawner: Self)
        ensures
            spawner@ == (Config {
                args: self@.args + seq![arg@, integer(fd as int)],
                fds: self@.fds.push(fd),
                ..self@
            }),
    {
        let mut spawner = self;
        spawner.fd_arg_i(arg, fd);
        spawner
    }

    /// Gives the child descriptors.
    pub fn fds_i(&mut self, fds: &[i32])
        ensures
            final(self)@ == (Config { fds: old(self)@.fds + fds@, ..old(self)@ }),
    {
        let mut i: usize = 0;
        assert(old(self)@.fds + fds@.take(0) =~= old(self)@.fds);
        while i < fds.len()
            invariant
                i <= fds@.len(),
                self@ == (Config { fds: old(self)@.fds + fds@.take(i as int), ..old(self)@ }),
            decreases fds@.len() - i,
        {
            self.fd_i(fds[i]);
            assert(self@.fds =~= old(self)@.fds + fds@.take(i + 1));
            i += 1;
        }
        assert(fds@.take(i as int) =~= fds@);
    }

    /// Gives the child descriptors.
    #[must_use]
    pub fn fds(self, fds: &[i32]) -> (spawner: Self)
        ensures
            spawner@ == (Config { fds: self@.fds + fds@, ..self@ }),
    {
        let mut spawner = self;
        spawner.fds_i(fds);
        spawner
    }

    /// The descriptors that the child is given.
    pub fn get_fds(&self) -> (fds: Vec<i32>)
        ensures
            fds@ == self@.fds,
    {
        let mut fds: Vec<i32> = Vec::new();
        let mut i: usize = 0;
        while i < self.fds.len()
            invariant
                i <= self.fds@.len(),
                fds@ == self.fds@.take(i as int),
            decreases self.fds@.len() - i,
        {
            fds.push(self.fds[i]);
            assert(fds@ =~= self.fds@.take(i + 1));
            i += 1;
        }
        assert(fds@ =~= self.fds@);
        fds
    }

    /// What is to be done with a standard stream.
    pub fn stream_mode(&self, stream: StdStream) -> (mode: StreamMode)
        ensures
            mode == stream_mode(self@, stream),
    {
        match stream {
            StdStream::Input => self.input,
            StdStream::Output => self.output,
            StdStream::Error => self.error,
        }
    }

    /// How the child is started. New privileges, capabilities to keep, a directory, descriptors, a
    /// filter and other users take a fork; else `posix_spawn` will do.
    pub fn method(&self) -> (method: Method)
        ensures
            method == self@.method(),
    {
        if self.no_new_privileges && set_is_empty(&self.whitelist) && self.dir.is_none()
            && self.fds.len() == 0 && self.seccomp.is_none() && self.mode.is_none() {
            Method::PosixSpawn
        } else {
            Method::ForkExec
        }
    }

    // -----------------------------------------------------------------------
    // The start of the child
    // -----------------------------------------------------------------------

    /// Works out the start of the child. `pipes` are those that were opened for the streams
    /// that need one (see [`cond_pipe`]), and `vars` the variables of this process.
    ///
    /// ## Errors
    /// [`Error::Null`] if the system cannot take the program or an argument: about the first
    /// such one. Else [`Error::Environment`] if it cannot take a variable that was set for the
    /// child. Else [`Error::Null`] if it cannot take the directory. The handles that were attached
    /// come back with the error.
    pub fn spawn(self, pipes: Pipes, vars: &[(Vec<u8>, Vec<u8>)]) -> (res: Result<Launch, Refused>)
        ensures
            match first_nul(self@.argv()) {
                Some(i) => {
                    &&& res matches Err(r) && r.error matches Error::Null(e) && e.is_about(
                        self@.argv()[i],
                    ) && lists_handles(r.associated@, self@.associated)
                },
                None => if has_nul_variable(self@.env) {
                    res matches Err(r) && r.is_about(Error::Environment, self@)
                } else if self@.dir is Some && has_nul(self@.dir->0) {
                    &&& res matches Err(r) && r.error matches Error::Null(e) && e.is_about(
                        self@.dir->0,
                    ) && lists_handles(r.associated@, self@.associated)
                } else {
                    res matches Ok(launch) && is_launch(launch, self@, pipes, vars@)
                },
            },
    {
        let ghost config = self@;
        let method = self.method();

        let mut argv: Vec<String> = Vec::new();
        let mut program: Option<String> = None;
        if self.elevate {
            program = Some("/usr/bin/pkexec".to_owned());
            argv.push("/usr/bin/pkexec".to_owned());
        }
        argv.push(self.cmd.clone());
        let program = match program {
            Some(program) => program,
            None => self.cmd,
        };
        let mut args = self.args;
        argv.append(&mut args);
        assert(texts(argv@) =~= config.argv());
        match check_all(argv.as_slice()) {
            Err(e) => {
                return Err(
                    Refused { error: Error::Null(e), associated: handles_into(self.associated) },
                );
            },
            Ok(()) => {},
        }

        let none: [(Vec<u8>, Vec<u8>); 0] = [];
        let envp = match environment(
            self.env,
            if self.preserve_env {
                vars
            } else {
                none.as_slice()
            },
        ) {
            Some(envp) => envp,
            None => {
                return Err(
                    Refused { error: Error::Environment, associated: handles_into(self.associated) },
                );
            },
        };
        assert(merged(config.env, none@) =~= encoded(config.env));

        if let Some(dir) = &self.dir {
            if let Err(e) = check_nul(dir.as_str()) {
                return Err(
                    Refused { error: Error::Null(e), associated: handles_into(self.associated) },
                );
            }
        }

        let close = close_ranges(self.fds.as_slice());
        let lose = difference(&self.whitelist);

        let mut child: Vec<ChildStep> = Vec::new();
        push_stream_steps(&mut child, StdStream::Input, self.input, pipes.input);
        push_stream_steps(&mut child, StdStream::Output, self.output, pipes.output);
        push_stream_steps(&mut child, StdStream::Error, self.error, pipes.error);
        push_confinement(
            &mut child,
            self.mode,
            self.dir.is_some(),
            self.no_new_privileges,
            self.seccomp.is_some(),
        );
        assert(child@ =~= config.child_steps(pipes));

        let mut parent: Vec<ParentStep> = Vec::new();
        push_parent_steps(&mut parent, StdStream::Input, self.input, pipes.input);
        push_parent_steps(&mut parent, StdStream::Output, self.output, pipes.output);
        push_parent_steps(&mut parent, StdStream::Error, self.error, pipes.error);
        assert(parent@ =~= config.parent_steps(pipes));

        let name = match self.unique_name {
            Some(name) => name,
            None => self.default_name,
        };
        let stdin = match pipes.input {
            Some((_, write)) => Some(write),
            None => None,
        };
        Ok(
            Launch {
                program,
                argv,
                envp,
                method,
                keep: self.fds,
                close,
                lose,
                dir: self.dir,
                filter: self.seccomp,
                child,
                parent,
                name,
                mode: self.mode,
                stdin,
                stdout: end_to_keep(self.output, pipes.output),
                stderr: end_to_keep(self.error, pipes.error),
                associated: handles_into(self.associated),
                preserve_env: self.preserve_env,
            },
        )
    }

    // -----------------------------------------------------------------------
    // The cache
    // -----------------------------------------------------------------------

    /// From now on, arguments are to be cached: those added from here on are written by
    /// [`Spawner::cache_write`], and in later runs [`Spawner::cache_read`] adds them instead.
    ///
    /// Values that do not outlive this process, such as numbers of descriptors, must not be
    /// cached.
    ///
    /// ## Errors
    /// [`Error::Cache`] if the cache was started and has not been written since.
    pub fn cache_start(&mut self) -> (res: Result<(), Error>)
        ensures
            old(self)@.cache_index is Some ==> res == Err::<(), Error>(
                Error::Cache("Caching already started!"),
            ) && final(self)@ == old(self)@,
            old(self)@.cache_index is None ==> res == Ok::<(), Error>(()) && final(self)@ == (
            Config { cache_index: Some(old(self)@.args.len() as usize), ..old(self)@ })
                && old(self)@.args.len() <= usize::MAX,
    {
        if self.cache_index.is_some() {
            Err(Error::Cache("Caching already started!"))
        } else {
            self.cache_index = Some(self.args.len());
            Ok(())
        }
    }

    /// What is to be written to the cache: the arguments added since the cache was started, as
    /// [`crate::cache`] writes them.
    ///
    /// ## Errors
    /// [`Error::Cache`] if the cache was not started.
    pub fn cache_contents(&self) -> (res: Result<String, Error>)
        ensures
            match self@.cache_index {
                Some(_) => res matches Ok(text) && text@ == contents(self@.cached()),
                None => res == Err::<String, Error>(Error::Cache("Cache not started!")),
            },
    {
        match self.cache_index {
            Some(index) => {
                let mut list: Vec<String> = Vec::new();
                let mut i: usize = index;
                while i < self.args.len()
                    invariant
                        index <= i,
                        index <= self.args@.len() ==> i <= self.args@.len(),
                        index > self.args@.len() ==> list@.len() == 0,
                        index <= self.args@.len() ==> texts(list@) == texts(self.args@).subrange(
                            index as int,
                            i as int,
                        ),
                    decreases self.args@.len() - i,
                {
                    list.push(self.args[i].clone());
                    assert(texts(list@) =~= texts(self.args@).subrange(index as int, i + 1));
                    i += 1;
                }
                assert(texts(list@) =~= self@.cached());
                Ok(write_contents(list.as_slice()))
            },
            None => Err(Error::Cache("Cache not started!")),
        }
    }

    /// Takes in that the cache was written. It can then be started again.
    ///
    /// ## Errors
    /// [`Error::Cache`] if the cache was not started, [`Error::Io`] if it could not be written.
    pub fn cache_write(&mut self, written: Result<(), std::io::Error>) -> (res: Result<(), Error>)
        ensures
            match (old(self)@.cache_index, written) {
                (None, _) => res == Err::<(), Error>(Error::Cache("Cache not started!"))
                    && final(self)@ == old(self)@,
                (Some(_), Err(e)) => res == Err::<(), Error>(Error::Io(e)) && final(self)@
                    == old(self)@,
                (Some(_), Ok(())) => res == Ok::<(), Error>(()) && final(self)@ == (Config {
                    cache_index: None,
                    ..old(self)@
                }),
            },
    {
        if self.cache_index.is_none() {
            return Err(Error::Cache("Cache not started!"));
        }
        match written {
            Ok(()) => {
                self.cache_index = None;
                Ok(())
            },
            Err(e) => Err(Error::Io(e)),
        }
    }

    /// Adds the arguments that the cache holds. `read` is what reading it gave.
    ///
    /// ## Errors
    /// [`Error::Io`] if it could not be read, [`Error::Null`] if it holds an argument that the
    /// system cannot take. No argument is then added.
    pub fn cache_read(&mut self, read: Result<String, std::io::Error>) -> (res: Result<
        (),
        Error,
    >)
        ensures
            match read {
                Err(e) => res == Err::<(), Error>(Error::Io(e)) && final(self)@ == old(self)@,
                Ok(text) => match first_nul(arguments(text@)) {
                    Some(i) => {
                        &&& res matches Err(Error::Null(e)) && e.is_about(arguments(text@)[i])
                        &&& final(self)@ == old(self)@
                    },
                    None => res == Ok::<(), Error>(()) && final(self)@ == old(self)@.with_args(
                        arguments(text@),
                    ),
                },
            },
    {
        match read {
            Err(e) => Err(Error::Io(e)),
            Ok(text) => {
                let list = read_arguments(text.as_str());
                match check_all(list.as_slice()) {
                    Err(e) => Err(Error::Null(e)),
                    Ok(()) => {
                        let ghost more = texts(list@);
                        let mut list = list;
                        self.args.append(&mut list);
                        assert(self@ =~= old(self)@.with_args(more));
                        Ok(())
                    },
                }
            },
        }
    }
}

/// What is to be done with a standard stream.
pub open spec fn stream_mode(config: Config, stream: StdStream) -> StreamMode {
    match stream {
        StdStream::Input => config.input,
        StdStream::Output => config.output,
        StdStream::Error => config.error,
    }
}

// ---------------------------------------------------------------------------
// What holds of every spawner
// ---------------------------------------------------------------------------

/// Arguments stand in the order in which they were added, in whatever portions.
pub proof fn law_arguments_keep_their_order(
    config: Config,
    first: Seq<Seq<char>>,
    second: Seq<Seq<char>>,
)
    ensures
        config.with_args(first).with_args(second) == config.with_args(first + second),
        config.with_args(first).args.take(config.args.len() as int) == config.args,
        config.with_args(first).args.skip(config.args.len() as int) == first,
{
    assert(config.with_args(first).with_args(second) =~= config.with_args(first + second));
    assert(config.with_args(first).args.take(config.args.len() as int) =~= config.args);
    assert(config.with_args(first).args.skip(config.args.len() as int) =~= first);
}

/// The arguments to be cached begin within those there are.
pub open spec fn cache_valid(config: Config) -> bool {
    config.cache_index matches Some(i) ==> i <= config.args.len()
}

/// The arguments to be cached always begin within those there are: it is so at first, when the
/// cache is started and when it was written, and adding arguments keeps it so.
pub proof fn law_cache_begins_within_arguments(
    config: Config,
    cmd: Seq<char>,
    name: Seq<char>,
    more: Seq<Seq<char>>,
)
    requires
        config.args.len() <= usize::MAX,
    ensures
        cache_valid(fresh(cmd, name)),
        cache_valid(Config { cache_index: Some(config.args.len() as usize), ..config }),
        cache_valid(Config { cache_index: None, ..config }),
        cache_valid(config) ==> cache_valid(config.with_args(more)),
{
}

proof fn lemma_no_nul(list: Seq<Seq<char>>, i: int)
    requires
        0 <= i,
        forall|j: int| 0 <= j < list.len() ==> !has_nul(#[trigger] list[j]),
    ensures
        nul_from(list, i) is None,
    decreases list.len() - i,
{
    if i < list.len() {
        lemma_no_nul(list, i + 1);
    }
}

/// What is added between the start of the cache and its writing is what is written, and what a
/// later run reads from it is what it adds: the same arguments in the same order, whatever they
/// hold and however many there are. Only the system must be able to take them.
pub proof fn law_cache_restores_arguments(
    config: Config,
    more: Seq<Seq<char>>,
    later: Config,
)
    requires
        config.args.len() <= usize::MAX,
        forall|i: int| 0 <= i < more.len() ==> !has_nul(#[trigger] more[i]),
    ensures
        ({
            let started = Config { cache_index: Some(config.args.len() as usize), ..config };
            let text = contents(started.with_args(more).cached());
            &&& started.with_args(more).cached() == more
            &&& first_nul(arguments(text)) is None
            &&& later.with_args(arguments(text)) == later.with_args(more)
        }),
{
    let started = Config { cache_index: Some(config.args.len() as usize), ..config };
    assert(started.with_args(more).cached() =~= more);
    law_written_arguments_are_read_back(more);
    lemma_no_nul(more, 0);
}

/// Unless the environment of this process is preserved, the child has the variables that were
/// set for it and no others: at first none.
pub proof fn law_environment_is_cleared_by_default(
    config: Config,
    vars: Seq<(Vec<u8>, Vec<u8>)>,
    cmd: Seq<char>,
    name: Seq<char>,
)
    ensures
        !config.preserve_env ==> config.environment(vars) == encoded(config.env),
        fresh(cmd, name).environment(vars) == (Map::<Seq<u8>, Seq<u8>>::empty()),
{
    assert(fresh(cmd, name).environment(vars) =~= Map::<Seq<u8>, Seq<u8>>::empty());
}

/// Where the environment of this process is preserved, the child has all of it, byte for byte,
/// except where a variable was set for it.
pub proof fn law_preserved_environment_is_whole(
    config: Config,
    vars: Seq<(Vec<u8>, Vec<u8>)>,
    key: Seq<u8>,
)
    requires
        config.preserve_env,
    ensures
        config.environment(vars).dom().contains(key) <==> inherited(vars).dom().contains(key)
            || encoded(config.env).dom().contains(key),
        encoded(config.env).dom().contains(key) ==> config.environment(vars)[key] == encoded(
            config.env,
        )[key],
        inherited(vars).dom().contains(key) && !encoded(config.env).dom().contains(key)
            ==> config.environment(vars)[key] == inherited(vars)[key],
{
}

/// A variable that was set for the child is in its environment with that value, preserved or
/// not.
pub proof fn law_set_variable_reaches_the_child(
    config: Config,
    vars: Seq<(Vec<u8>, Vec<u8>)>,
    key: Seq<char>,
    value: Seq<char>,
)
    ensures
        config.with_env(key, value).environment(vars) == config.environment(vars).insert(
            encode_utf8(key),
            encode_utf8(value),
        ),
{
    law_set_variable_overrides(config.env, vars, key, value);
    let none = Seq::<(Vec<u8>, Vec<u8>)>::empty();
    law_set_variable_overrides(config.env, none, key, value);
    assert(merged(config.env, none) =~= encoded(config.env));
    assert(merged(config.with_env(key, value).env, none) =~= encoded(
        config.with_env(key, value).env,
    ));
}

/// Where the environment of this process is preserved, to pass one of its variables on makes no
/// difference, unless it had been set for the child before.
pub proof fn law_passing_on_is_no_change_when_preserved(
    config: Config,
    vars: Seq<(Vec<u8>, Vec<u8>)>,
    key: Seq<char>,
    value: Seq<char>,
)
    requires
        config.preserve_env,
        inherited(vars).dom().contains(encode_utf8(key)),
        inherited(vars)[encode_utf8(key)] == encode_utf8(value),
        !config.env.dom().contains(key),
    ensures
        config.with_env(key, value).environment(vars) == config.environment(vars),
{
    law_passing_on_is_no_change_when_all_are(config.env, vars, key, value);
}

/// A child is started by `posix_spawn` exactly if it may not gain privileges and nothing was asked
/// for that takes a fork: capabilities to keep, a directory, descriptors, a filter or other users.
pub proof fn law_method(config: Config, cmd: Seq<char>, name: Seq<char>)
    ensures
        fresh(cmd, name).method() == Method::PosixSpawn,
        config.method() == Method::PosixSpawn <==> {
            &&& config.no_new_privileges
            &&& forall|c: u8| !config.whitelist.contains(c)
            &&& config.dir is None
            &&& config.fds.len() == 0
            &&& config.seccomp is None
            &&& config.mode is None
        },
        config.method() != Method::PosixSpawn ==> config.method() == Method::ForkExec,
        !config.no_new_privileges ==> config.method() == Method::ForkExec,
        forall|c: u8| config.whitelist.contains(c) ==> config.method() == Method::ForkExec,
        config.dir is Some ==> config.method() == Method::ForkExec,
        config.fds.len() > 0 ==> config.method() == Method::ForkExec,
        config.seccomp is Some ==> config.method() == Method::ForkExec,
        config.mode is Some ==> config.method() == Method::ForkExec,
{
    if forall|c: u8| !config.whitelist.contains(c) {
        assert(config.whitelist =~= Set::<u8>::empty());
    }
}

/// After capabilities were added from a list, a number is to be kept exactly if it was before, or
/// it is that of some capability of the list, wherever it stands.
pub proof fn law_capabilities_of_the_list_are_kept(set: Set<u8>, caps: Seq<Capability>, c: u8)
    ensures
        with_caps(set, caps).contains(c) <==> set.contains(c) || exists|i: int|
            0 <= i < caps.len() && (#[trigger] caps[i]).number() == c,
    decreases caps.len(),
{
    if caps.len() > 0 {
        let init = caps.drop_last();
        law_capabilities_of_the_list_are_kept(set, init, c);
        if exists|i: int| 0 <= i < init.len() && (#[trigger] init[i]).number() == c {
            let i = choose|i: int| 0 <= i < init.len() && (#[trigger] init[i]).number() == c;
            assert(caps[i].number() == c);
        }
        if exists|i: int| 0 <= i < caps.len() && (#[trigger] caps[i]).number() == c {
            let i = choose|i: int| 0 <= i < caps.len() && (#[trigger] caps[i]).number() == c;
            if i < init.len() {
                assert(init[i].number() == c);
            }
        }
        assert(caps[caps.len() - 1] == caps.last());
    }
}

/// A capability that was asked for, alone or anywhere in a list, is not among those that the child
/// loses; one that was not is.
pub proof fn law_capability_that_is_kept_is_not_lost(
    launch: Launch,
    config: Config,
    caps: Seq<Capability>,
    pipes: Pipes,
    vars: Seq<(Vec<u8>, Vec<u8>)>,
    cap: Capability,
)
    requires
        is_launch(
            launch,
            Config { whitelist: with_caps(config.whitelist, caps), ..config },
            pipes,
            vars,
        ),
    ensures
        launch.lose@.contains(cap.number()) <==> !config.whitelist.contains(cap.number())
            && !caps.contains(cap),
{
    let c = cap.number();
    law_capabilities_have_the_kernels_numbers(cap, cap);
    law_capabilities_of_the_list_are_kept(config.whitelist, caps, c);
    if caps.contains(cap) {
        let i = choose|i: int| 0 <= i < caps.len() && caps[i] == cap;
        assert(caps[i].number() == c);
    }
    if exists|i: int| 0 <= i < caps.len() && (#[trigger] caps[i]).number() == c {
        let i = choose|i: int| 0 <= i < caps.len() && (#[trigger] caps[i]).number() == c;
        law_capabilities_have_the_kernels_numbers(cap, caps[i]);
        assert(caps[i] == cap);
    }
}

/// What this process has for a variable is passed on as the whole text that its bytes are. Nothing
/// is passed on where there is no such variable, or its bytes are those of no text.
pub proof fn law_value_is_passed_on_whole(found: Option<Vec<u8>>, value: Seq<char>)
    ensures
        found matches Some(bytes) && bytes@ == encode_utf8(value) ==> looked_up(found) == Some(
            value,
        ),
        found is None ==> looked_up(found) is None,
        looked_up(found) matches Some(text) ==> found is Some && found->0@ == encode_utf8(text),
{
    match found {
        Some(bytes) => {
            law_text_survives_its_bytes(value, bytes@);
        },
        None => {},
    }
}

/// Nothing is asked for at first: streams are shared, no environment is preserved, no privileges
/// are allowed, and there are no arguments, variables, capabilities, handles or descriptors.
pub proof fn law_new_spawner_asks_for_nothing(cmd: Seq<char>, name: Seq<char>)
    ensures
        ({
            let new = fresh(cmd, name);
            &&& new.cmd == cmd
            &&& new.default_name == name
            &&& new.unique_name is None
            &&& new.name() == name
            &&& new.args.len() == 0
            &&& new.input is Share && new.output is Share && new.error is Share
            &&& !new.preserve_env && new.no_new_privileges && !new.elevate
            &&& forall|c: u8| !new.whitelist.contains(c)
            &&& forall|key: Seq<char>| !new.env.dom().contains(key)
            &&& forall|key: Seq<char>| !new.associated.dom().contains(key)
            &&& new.cache_index is None
            &&& new.fds.len() == 0
            &&& new.mode is None && new.seccomp is None && new.dir is None
        }),
{
}

/// A child is called by the name that it was given, and else by what its spawner was made with.
pub proof fn law_given_name_counts(config: Config, name: Seq<char>)
    ensures
        (Config { unique_name: Some(name), ..config }).name() == name,
        (Config { unique_name: None, ..config }).name() == config.default_name,
{
}

/// A variable that is set has this value, every other one what it had, and nothing else of what is
/// wanted is touched; nor is it by arguments that are added.
pub proof fn law_only_what_is_set_changes(
    config: Config,
    key: Seq<char>,
    value: Seq<char>,
    other: Seq<char>,
    more: Seq<Seq<char>>,
)
    ensures
        config.with_env(key, value).env.dom().contains(key),
        config.with_env(key, value).env[key] == value,
        other != key ==> config.with_env(key, value).env.dom().contains(other)
            == config.env.dom().contains(other) && config.with_env(key, value).env[other]
            == config.env[other],
        (Config { env: config.env, ..config.with_env(key, value) }) == config,
        (Config { args: config.args, ..config.with_args(more) }) == config,
{
}

/// A stream takes a pipe exactly if it goes to the handle or to the log.
pub proof fn law_pipes_are_for_handles_and_logs(level: log::Level, fd: i32)
    ensures
        needs_pipe(StreamMode::Pipe),
        needs_pipe(StreamMode::Log(level)),
        !needs_pipe(StreamMode::Share),
        !needs_pipe(StreamMode::Discard),
        !needs_pipe(StreamMode::Fd(fd)),
{
}

/// Each standard stream has the mode that was set for it.
pub proof fn law_each_stream_has_its_mode(config: Config, mode: StreamMode)
    ensures
        stream_mode(Config { input: mode, ..config }, StdStream::Input) == mode,
        stream_mode(Config { output: mode, ..config }, StdStream::Output) == mode,
        stream_mode(Config { error: mode, ..config }, StdStream::Error) == mode,
        stream_mode(config, StdStream::Input) == config.input,
        stream_mode(config, StdStream::Output) == config.output,
        stream_mode(config, StdStream::Error) == config.error,
{
}

/// A refusal tells what went wrong and gives back every handle that was attached.
pub proof fn law_refusal_gives_all_back(refused: Refused, error: Error, config: Config)
    requires
        refused.is_about(error, config),
    ensures
        refused.error == error,
        lists_handles(refused.associated@, config.associated),
        forall|name: Seq<char>| config.associated.dom().contains(name) ==> exists|i: int|
            0 <= i < refused.associated@.len() && #[trigger] refused.associated@[i]
                == config.associated[name],
{
    let names = law_every_handle_is_listed_once(refused.associated@, config.associated);
    assert forall|name: Seq<char>| config.associated.dom().contains(name) implies exists|i: int|
        0 <= i < refused.associated@.len() && #[trigger] refused.associated@[i]
            == config.associated[name] by {
        let i = choose|i: int| 0 <= i < names.len() && #[trigger] names[i] == name;
        assert(refused.associated@[i] == config.associated[name]);
    }
}

/// A text that may be missing is there exactly if the string is, and is its text.
pub proof fn law_missing_text_is_missing(text: String)
    ensures
        opt_text(Some(text)) == Some(text@),
        opt_text(None) is None,
{
}

} // verus!
