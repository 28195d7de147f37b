//! Finding the program that a command names: the first match in the directories of **PATH**, or the
//! command itself where it is a path, that is, where it holds a slash.
//!
//! A resolver of one's own can be given to [`crate::Spawner::which`]: one that trusts no links,
//! say, or that remembers what it found. [`SpawnWhich`] is the plain one.

use crate::text::{
    from_utf8, holds, joined, law_pieces_are_what_the_separator_parts, law_text_survives_its_bytes,
    pieces, split, texts, utf8_text,
};
use std::borrow::Cow;
use vstd::prelude::*;
use vstd::utf8::encode_utf8;

verus! {

/// Errors when a path is resolved.
#[derive(Debug)]
pub enum Error {
    /// The command is not in **PATH**.
    NotFound(String),
    /// There is no **PATH**.
    Path,
}

/// A way to find programs.
pub trait Which {
    /// The path of the program that a command names.
    ///
    /// ## Errors
    /// If there is no such program, or it could not be looked for.
    fn which(cmd: &str) -> Result<Cow<'_, str>, Error>;
}

/// The plain resolver: it looks for a file of the command's name in each directory of **PATH**, in
/// order. A command that holds a slash is looked for as it stands before.
#[derive(Clone, Copy, Debug)]
pub struct SpawnWhich;

/// What a search has to know next, or what it found.
#[derive(Debug)]
pub enum Step {
    /// Whether there is a file of this path.
    Probe(String),
    /// What **PATH** holds.
    ReadPath,
    /// The search is over.
    Done(Result<String, Error>),
}

/// How far a search has come.
#[derive(Debug)]
enum Stage {
    /// The command itself is to be looked for.
    Bare,
    /// The command itself is not to be looked for any more, and **PATH** is not known yet.
    NoDirs,
    /// The directories are known, and those before this one do not hold the command.
    Dirs(Vec<String>, usize),
    /// The program was found.
    Found(String),
    /// There is no **PATH**.
    NoPath,
}

/// A search for a program.
#[derive(Debug)]
pub struct Search {
    cmd: String,
    stage: Stage,
}

/// How far a search has come, seen from outside.
pub enum SearchView {
    /// The command itself is to be looked for.
    Bare(Seq<char>),
    /// The command itself is not to be looked for any more, and **PATH** is not known yet.
    NoDirs(Seq<char>),
    /// The command is to be looked for in these directories.
    Dirs(Seq<char>, Seq<Seq<char>>),
    /// The program was found.
    Found(Seq<char>),
    /// There is no **PATH**.
    NoPath,
}

/// How a search ends.
pub enum Outcome {
    /// This is the program.
    Found(Seq<char>),
    /// There is no such program.
    NotFound(Seq<char>),
    /// There is no **PATH**.
    NoPath,
}

/// A command in a directory.
pub open spec fn in_dir(dir: Seq<char>, cmd: Seq<char>) -> Seq<char> {
    dir.push('/') + cmd
}

/// The first of the directories that holds the command decides.
pub open spec fn resolve_in(
    cmd: Seq<char>,
    dirs: Seq<Seq<char>>,
    exists_at: spec_fn(Seq<char>) -> bool,
) -> Outcome
    decreases dirs.len(),
{
    if dirs.len() == 0 {
        Outcome::NotFound(cmd)
    } else if exists_at(in_dir(dirs[0], cmd)) {
        Outcome::Found(in_dir(dirs[0], cmd))
    } else {
        resolve_in(cmd, dirs.drop_first(), exists_at)
    }
}

/// The directories of **PATH** decide, if there is one.
pub open spec fn resolve_by(
    cmd: Seq<char>,
    path: Option<Seq<char>>,
    exists_at: spec_fn(Seq<char>) -> bool,
) -> Outcome {
    match path {
        None => Outcome::NoPath,
        Some(p) => resolve_in(cmd, pieces(p, ':'), exists_at),
    }
}

/// The command is a path: it says itself where the program is.
pub open spec fn is_path(cmd: Seq<char>) -> bool {
    cmd.contains('/')
}

/// What a command names, where `exists_at` says which files there are and `path` what **PATH**
/// holds. Files of the working directory do not count, unless the command is a path.
pub open spec fn resolve(
    cmd: Seq<char>,
    path: Option<Seq<char>>,
    exists_at: spec_fn(Seq<char>) -> bool,
) -> Outcome {
    if is_path(cmd) && exists_at(cmd) {
        Outcome::Found(cmd)
    } else {
        resolve_by(cmd, path, exists_at)
    }
}

/// A search begins.
pub open spec fn begun(cmd: Seq<char>) -> SearchView {
    if is_path(cmd) {
        SearchView::Bare(cmd)
    } else {
        SearchView::NoDirs(cmd)
    }
}

/// What **PATH** holds, as text: nothing where it is not set or is not UTF-8.
pub open spec fn path_text(value: Option<Seq<u8>>) -> Option<Seq<char>> {
    match value {
        Some(bytes) => utf8_text(bytes),
        None => None,
    }
}

impl SearchView {
    /// The file that the search asks about.
    pub open spec fn probe(self) -> Option<Seq<char>> {
        match self {
            SearchView::Bare(cmd) => Some(cmd),
            SearchView::Dirs(cmd, dirs) => if dirs.len() > 0 {
                Some(in_dir(dirs[0], cmd))
            } else {
                None
            },
            _ => None,
        }
    }

    /// The search once it is known whether the file that it asks about is there.
    pub open spec fn probed(self, there: bool) -> SearchView {
        match self {
            SearchView::Bare(cmd) => if there {
                SearchView::Found(cmd)
            } else {
                SearchView::NoDirs(cmd)
            },
            SearchView::Dirs(cmd, dirs) => if dirs.len() == 0 {
                self
            } else if there {
                SearchView::Found(in_dir(dirs[0], cmd))
            } else {
                SearchView::Dirs(cmd, dirs.drop_first())
            },
            _ => self,
        }
    }

    /// The search once **PATH** is known.
    pub open spec fn with_path(self, path: Option<Seq<char>>) -> SearchView {
        match self {
            SearchView::NoDirs(cmd) => match path {
                Some(p) => SearchView::Dirs(cmd, pieces(p, ':')),
                None => SearchView::NoPath,
            },
            _ => self,
        }
    }

    /// How the search will end.
    pub open spec fn outcome(
        self,
        path: Option<Seq<char>>,
        exists_at: spec_fn(Seq<char>) -> bool,
    ) -> Outcome {
        match self {
            SearchView::Bare(cmd) => if exists_at(cmd) {
                Outcome::Found(cmd)
            } else {
                resolve_by(cmd, path, exists_at)
            },
            SearchView::NoDirs(cmd) => resolve_by(cmd, path, exists_at),
            SearchView::Dirs(cmd, dirs) => resolve_in(cmd, dirs, exists_at),
            SearchView::Found(file) => Outcome::Found(file),
            SearchView::NoPath => Outcome::NoPath,
        }
    }

    /// How many more answers the search can take, where **PATH** names so many directories.
    pub open spec fn left(self, dirs: nat) -> nat {
        match self {
            SearchView::Bare(_) => dirs + 2,
            SearchView::NoDirs(_) => dirs + 1,
            SearchView::Dirs(_, rest) => rest.len(),
            _ => 0,
        }
    }
}

impl Step {
    /// The step is the right one for a search that has come so far.
    pub open spec fn fits(self, search: SearchView) -> bool {
        match self {
            Step::Probe(file) => search.probe() == Some(file@),
            Step::ReadPath => search is NoDirs,
            Step::Done(Ok(file)) => search == SearchView::Found(file@),
            Step::Done(Err(Error::NotFound(cmd))) => search == SearchView::Dirs(
                cmd@,
                Seq::<Seq<char>>::empty(),
            ),
            Step::Done(Err(Error::Path)) => search is NoPath,
        }
    }
}

impl View for Search {
    type V = SearchView;

    closed spec fn view(&self) -> SearchView {
        match self.stage {
            Stage::Bare => SearchView::Bare(self.cmd@),
            Stage::NoDirs => SearchView::NoDirs(self.cmd@),
            Stage::Dirs(dirs, next) => SearchView::Dirs(
                self.cmd@,
                texts(dirs@).skip(next as int),
            ),
            Stage::Found(file) => SearchView::Found(file@),
            Stage::NoPath => SearchView::NoPath,
        }
    }
}

impl SpawnWhich {
    /// Begins to look for a command.
    pub fn search(cmd: &str) -> (search: Search)
        ensures
            search@ == begun(cmd@),
    {
        let stage = if holds(cmd, '/') {
            Stage::Bare
        } else {
            Stage::NoDirs
        };
        Search { cmd: cmd.to_owned(), stage }
    }
}

impl Search {
    /// The directories that were passed over are among those there are.
    #[verifier::type_invariant]
    closed spec fn well_formed(self) -> bool {
        self.stage matches Stage::Dirs(dirs, next) ==> next <= dirs@.len()
    }

    /// The path of the command in a directory.
    fn file_in(dir: &String, cmd: &String) -> (file: String)
        ensures
            file@ == in_dir(dir@, cmd@),
    {
        let mut file = dir.clone();
        file.push('/');
        file.append(cmd.as_str());
        file
    }

    /// What the search has to know next, or what it found.
    pub fn step(&self) -> (step: Step)
        ensures
            step.fits(self@),
    {
        proof {
            use_type_invariant(self);
        }
        match &self.stage {
            Stage::Bare => Step::Probe(self.cmd.clone()),
            Stage::NoDirs => Step::ReadPath,
            Stage::Dirs(dirs, next) => {
                if *next < dirs.len() {
                    let file = Self::file_in(&dirs[*next], &self.cmd);
                    assert(texts(dirs@).skip(*next as int)[0] == dirs@[*next as int]@);
                    Step::Probe(file)
                } else {
                    assert(texts(dirs@).skip(*next as int) =~= Seq::empty());
                    Step::Done(Err(Error::NotFound(self.cmd.clone())))
                }
            },
            Stage::Found(file) => Step::Done(Ok(file.clone())),
            Stage::NoPath => Step::Done(Err(Error::Path)),
        }
    }

    /// Goes on once it is known whether the file that was asked about is there.
    pub fn probed(self, there: bool) -> (next: Search)
        ensures
            next@ == self@.probed(there),
    {
        proof {
            use_type_invariant(&self);
        }
        let Search { cmd, stage } = self;
        match stage {
            Stage::Bare => {
                if there {
                    Search { cmd: cmd.clone(), stage: Stage::Found(cmd) }
                } else {
                    Search { cmd, stage: Stage::NoDirs }
                }
            },
            Stage::Dirs(dirs, next) => {
                if next >= dirs.len() {
                    Search { cmd, stage: Stage::Dirs(dirs, next) }
                } else if there {
                    let file = Self::file_in(&dirs[next], &cmd);
                    assert(texts(dirs@).skip(next as int)[0] == dirs@[next as int]@);
                    Search { cmd, stage: Stage::Found(file) }
                } else {
                    assert(texts(dirs@).skip(next as int).drop_first() =~= texts(dirs@).skip(
                        next + 1,
                    ));
                    Search { cmd, stage: Stage::Dirs(dirs, next + 1) }
                }
            },
            other => Search { cmd, stage: other },
        }
    }

    /// Goes on once it is known what **PATH** holds.
    pub fn with_path(self, value: Option<Vec<u8>>) -> (next: Search)
        ensures
            next@ == self@.with_path(
                path_text(
                    match value {
                        Some(bytes) => Some(bytes@),
                        None => None,
                    },
                ),
            ),
    {
        proof {
            use_type_invariant(&self);
        }
        let Search { cmd, stage } = self;
        match stage {
            Stage::NoDirs => {
                let path = match value {
                    Some(bytes) => from_utf8(bytes.as_slice()),
                    None => None,
                };
                match path {
                    Some(p) => {
                        let dirs = split(p.as_str(), ':');
                        assert(texts(dirs@).skip(0) =~= texts(dirs@));
                        Search { cmd, stage: Stage::Dirs(dirs, 0) }
                    },
                    None => Search { cmd, stage: Stage::NoPath },
                }
            },
            other => Search { cmd, stage: other },
        }
    }
}

// ---------------------------------------------------------------------------
// What is found
// ---------------------------------------------------------------------------

/// A search that is told the truth ends as [`resolve`] says: it begins so, no answer changes how
/// it will end, every answer brings it nearer to its end, and it asks nothing more once it is
/// there.
pub proof fn law_search_resolves(
    cmd: Seq<char>,
    search: SearchView,
    path: Option<Seq<char>>,
    exists_at: spec_fn(Seq<char>) -> bool,
)
    ensures
        begun(cmd).outcome(path, exists_at) == resolve(cmd, path, exists_at),
        search.probe() matches Some(file) ==> {
            let next = search.probed(exists_at(file));
            let dirs = match path {
                Some(p) => pieces(p, ':').len(),
                None => 0,
            };
            &&& next.outcome(path, exists_at) == search.outcome(path, exists_at)
            &&& next.left(dirs) < search.left(dirs)
        },
        search is NoDirs ==> {
            let next = search.with_path(path);
            let dirs = match path {
                Some(p) => pieces(p, ':').len(),
                None => 0,
            };
            &&& next.outcome(path, exists_at) == search.outcome(path, exists_at)
            &&& next.left(dirs) < search.left(dirs)
        },
        search.probe() is None && !(search is NoDirs) ==> search.outcome(path, exists_at) == (
        match search {
            SearchView::Found(file) => Outcome::Found(file),
            SearchView::Dirs(cmd, _) => Outcome::NotFound(cmd),
            _ => Outcome::NoPath,
        }),
{
}

/// The place of a directory that holds the command, with none before it.
pub open spec fn first_holding(
    cmd: Seq<char>,
    dirs: Seq<Seq<char>>,
    exists_at: spec_fn(Seq<char>) -> bool,
    i: int,
) -> bool {
    &&& 0 <= i < dirs.len()
    &&& exists_at(in_dir(dirs[i], cmd))
    &&& forall|j: int| 0 <= j < i ==> !exists_at(in_dir(#[trigger] dirs[j], cmd))
}

proof fn lemma_resolve_in(
    cmd: Seq<char>,
    dirs: Seq<Seq<char>>,
    exists_at: spec_fn(Seq<char>) -> bool,
)
    ensures
        match resolve_in(cmd, dirs, exists_at) {
            Outcome::Found(file) => exists|i: int|
                first_holding(cmd, dirs, exists_at, i) && file == in_dir(#[trigger] dirs[i], cmd),
            Outcome::NotFound(c) => c == cmd && forall|i: int|
                0 <= i < dirs.len() ==> !exists_at(in_dir(#[trigger] dirs[i], cmd)),
            Outcome::NoPath => false,
        },
    decreases dirs.len(),
{
    if dirs.len() > 0 {
        if exists_at(in_dir(dirs[0], cmd)) {
            assert(first_holding(cmd, dirs, exists_at, 0));
        } else {
            let rest = dirs.drop_first();
            lemma_resolve_in(cmd, rest, exists_at);
            match resolve_in(cmd, rest, exists_at) {
                Outcome::Found(file) => {
                    let i = choose|i: int|
                        first_holding(cmd, rest, exists_at, i) && file == in_dir(
                            #[trigger] rest[i],
                            cmd,
                        );
                    assert forall|j: int| 0 <= j < i + 1 implies !exists_at(
                        in_dir(#[trigger] dirs[j], cmd),
                    ) by {
                        if j > 0 {
                            assert(rest[j - 1] == dirs[j]);
                        }
                    }
                    assert(dirs[i + 1] == rest[i]);
                    assert(first_holding(cmd, dirs, exists_at, i + 1));
                },
                _ => {
                    assert forall|i: int| 0 <= i < dirs.len() implies !exists_at(
                        in_dir(#[trigger] dirs[i], cmd),
                    ) by {
                        if i > 0 {
                            assert(rest[i - 1] == dirs[i]);
                        }
                    }
                },
            }
        }
    }
}

/// What is found is there. It is the command in the first directory of **PATH** that holds it, or
/// the command itself where that is a path. Nothing is found exactly if neither is there.
pub proof fn law_resolve_finds_the_first(
    cmd: Seq<char>,
    path: Option<Seq<char>>,
    exists_at: spec_fn(Seq<char>) -> bool,
)
    ensures
        match resolve(cmd, path, exists_at) {
            Outcome::Found(file) => {
                &&& exists_at(file)
                &&& is_path(cmd) && exists_at(cmd) ==> file == cmd
                &&& !(is_path(cmd) && exists_at(cmd)) ==> path is Some && exists|i: int|
                    {
                        &&& first_holding(cmd, pieces(path->0, ':'), exists_at, i)
                        &&& file == in_dir(#[trigger] pieces(path->0, ':')[i], cmd)
                    }
            },
            Outcome::NotFound(c) => {
                &&& c == cmd
                &&& !(is_path(cmd) && exists_at(cmd))
                &&& path is Some
                &&& forall|i: int|
                    0 <= i < pieces(path->0, ':').len() ==> !exists_at(
                        in_dir(#[trigger] pieces(path->0, ':')[i], cmd),
                    )
            },
            Outcome::NoPath => !(is_path(cmd) && exists_at(cmd)) && path is None,
        },
{
    if !(is_path(cmd) && exists_at(cmd)) && path is Some {
        lemma_resolve_in(cmd, pieces(path->0, ':'), exists_at);
    }
}

/// Without a slash in the command, what is found is in a directory of **PATH**: whatever file of
/// that name is in the working directory makes no difference.
pub proof fn law_working_directory_is_not_searched(
    cmd: Seq<char>,
    path: Option<Seq<char>>,
    exists_at: spec_fn(Seq<char>) -> bool,
    otherwise: spec_fn(Seq<char>) -> bool,
)
    requires
        !is_path(cmd),
        forall|file: Seq<char>| is_path(file) ==> #[trigger] exists_at(file) == otherwise(file),
    ensures
        resolve(cmd, path, exists_at) == resolve(cmd, path, otherwise),
{
    if let Some(p) = path {
        lemma_only_paths_matter(cmd, pieces(p, ':'), exists_at, otherwise);
    }
}

proof fn lemma_only_paths_matter(
    cmd: Seq<char>,
    dirs: Seq<Seq<char>>,
    exists_at: spec_fn(Seq<char>) -> bool,
    otherwise: spec_fn(Seq<char>) -> bool,
)
    requires
        forall|file: Seq<char>| is_path(file) ==> #[trigger] exists_at(file) == otherwise(file),
    ensures
        resolve_in(cmd, dirs, exists_at) == resolve_in(cmd, dirs, otherwise),
    decreases dirs.len(),
{
    if dirs.len() > 0 {
        let file = in_dir(dirs[0], cmd);
        assert(file[dirs[0].len() as int] == '/');
        assert(exists_at(file) == otherwise(file));
        lemma_only_paths_matter(cmd, dirs.drop_first(), exists_at, otherwise);
    }
}

/// A command in a directory is the directory, a slash and the command. A command is a path exactly
/// if a slash stands in it.
pub proof fn law_slash_makes_a_path(dir: Seq<char>, cmd: Seq<char>)
    ensures
        in_dir(dir, cmd) == dir + seq!['/'] + cmd,
        is_path(cmd) <==> exists|i: int| 0 <= i < cmd.len() && #[trigger] cmd[i] == '/',
{
    assert(in_dir(dir, cmd) =~= dir + seq!['/'] + cmd);
}

/// **PATH** is read where it is set and is text, and then as that text.
pub proof fn law_path_is_read_as_text(text: Seq<char>, bytes: Seq<u8>)
    ensures
        path_text(Some(encode_utf8(text))) == Some(text),
        path_text(Some(bytes)) matches Some(t) ==> encode_utf8(t) == bytes,
        path_text(Some(bytes)) is None ==> forall|t: Seq<char>| #[trigger] encode_utf8(t) != bytes,
        path_text(None) is None,
{
    law_text_survives_its_bytes(text, bytes);
}

/// The file that is found is the command itself, or else `DIR/COMMAND` for the first of the
/// directories that **PATH** names, between its colons, which holds it; and a command without a
/// slash is never found as it stands.
pub proof fn law_first_directory_of_path_wins(
    cmd: Seq<char>,
    dirs: Seq<Seq<char>>,
    exists_at: spec_fn(Seq<char>) -> bool,
    i: int,
)
    requires
        dirs.len() > 0,
        forall|j: int, k: int|
            0 <= j < dirs.len() && 0 <= k < dirs[j].len() ==> (#[trigger] dirs[j][k]) != ':',
        !cmd.contains('/') || !exists_at(cmd),
    ensures
        0 <= i < dirs.len() && exists_at(dirs[i] + seq!['/'] + cmd) && (forall|j: int|
            0 <= j < i ==> !exists_at(#[trigger] dirs[j] + seq!['/'] + cmd)) ==> resolve(
            cmd,
            Some(joined(dirs, ':')),
            exists_at,
        ) == Outcome::Found(dirs[i] + seq!['/'] + cmd),
        (forall|j: int| 0 <= j < dirs.len() ==> !exists_at(#[trigger] dirs[j] + seq!['/'] + cmd))
            ==> resolve(cmd, Some(joined(dirs, ':')), exists_at) == Outcome::NotFound(cmd),
        resolve(cmd, None, exists_at) == Outcome::NoPath,
{
    law_pieces_are_what_the_separator_parts(joined(dirs, ':'), ':', dirs);
    assert(pieces(joined(dirs, ':'), ':') == dirs);
    if 0 <= i < dirs.len() && exists_at(dirs[i] + seq!['/'] + cmd) && (forall|j: int|
        0 <= j < i ==> !exists_at(#[trigger] dirs[j] + seq!['/'] + cmd)) {
        lemma_found_in(cmd, dirs, exists_at, i);
    }
    if forall|j: int| 0 <= j < dirs.len() ==> !exists_at(#[trigger] dirs[j] + seq!['/'] + cmd) {
        lemma_found_nowhere(cmd, dirs, exists_at);
    }
}

/// A command that is a path and is there is found as it stands, whatever **PATH** holds.
pub proof fn law_path_that_is_there_is_found(
    cmd: Seq<char>,
    path: Option<Seq<char>>,
    exists_at: spec_fn(Seq<char>) -> bool,
)
    requires
        cmd.contains('/'),
        exists_at(cmd),
    ensures
        resolve(cmd, path, exists_at) == Outcome::Found(cmd),
{
}

proof fn lemma_found_in(
    cmd: Seq<char>,
    dirs: Seq<Seq<char>>,
    exists_at: spec_fn(Seq<char>) -> bool,
    i: int,
)
    requires
        0 <= i < dirs.len(),
        exists_at(dirs[i] + seq!['/'] + cmd),
        forall|j: int| 0 <= j < i ==> !exists_at(#[trigger] dirs[j] + seq!['/'] + cmd),
    ensures
        resolve_in(cmd, dirs, exists_at) == Outcome::Found(dirs[i] + seq!['/'] + cmd),
    decreases i,
{
    law_slash_makes_a_path(dirs[0], cmd);
    if i > 0 {
        let rest = dirs.drop_first();
        assert(!exists_at(dirs[0] + seq!['/'] + cmd));
        assert(rest[i - 1] == dirs[i]);
        assert forall|j: int| 0 <= j < i - 1 implies !exists_at(
            #[trigger] rest[j] + seq!['/'] + cmd,
        ) by {
            assert(rest[j] == dirs[j + 1]);
        }
        lemma_found_in(cmd, rest, exists_at, i - 1);
    }
}

proof fn lemma_found_nowhere(
    cmd: Seq<char>,
    dirs: Seq<Seq<char>>,
    exists_at: spec_fn(Seq<char>) -> bool,
)
    requires
        forall|j: int| 0 <= j < dirs.len() ==> !exists_at(#[trigger] dirs[j] + seq!['/'] + cmd),
    ensures
        resolve_in(cmd, dirs, exists_at) == Outcome::NotFound(cmd),
    decreases dirs.len(),
{
    if dirs.len() > 0 {
        law_slash_makes_a_path(dirs[0], cmd);
        assert(!exists_at(dirs[0] + seq!['/'] + cmd));
        let rest = dirs.drop_first();
        assert forall|j: int| 0 <= j < rest.len() implies !exists_at(
            #[trigger] rest[j] + seq!['/'] + cmd,
        ) by {
            assert(rest[j] == dirs[j + 1]);
        }
        lemma_found_nowhere(cmd, rest, exists_at);
    }
}

/// How far a search has come after it was told the truth so many times.
pub open spec fn told_the_truth(
    search: SearchView,
    path: Option<Seq<char>>,
    exists_at: spec_fn(Seq<char>) -> bool,
    times: nat,
) -> SearchView
    decreases times,
{
    if times == 0 {
        search
    } else {
        let before = told_the_truth(search, path, exists_at, (times - 1) as nat);
        match before.probe() {
            Some(file) => before.probed(exists_at(file)),
            None => before.with_path(path),
        }
    }
}

/// However often a search for a command has been told the truth, what it says then is right: the
/// answer that it gives is what the command names, a file that it asks about is the command or is
/// in a directory, and it asks for **PATH** at most while it does not know it.
pub proof fn law_search_answers_rightly(
    cmd: Seq<char>,
    path: Option<Seq<char>>,
    exists_at: spec_fn(Seq<char>) -> bool,
    times: nat,
    step: Step,
)
    requires
        step.fits(told_the_truth(begun(cmd), path, exists_at, times)),
    ensures
        match step {
            Step::Done(Ok(file)) => resolve(cmd, path, exists_at) == Outcome::Found(file@)
                && exists_at(file@),
            Step::Done(Err(Error::NotFound(c))) => resolve(cmd, path, exists_at)
                == Outcome::NotFound(c@) && c@ == cmd,
            Step::Done(Err(Error::Path)) => resolve(cmd, path, exists_at) == Outcome::NoPath
                && path is None,
            Step::Probe(file) => (file@ == cmd && cmd.contains('/')) || path is Some && exists|
                i: int,
            |
                0 <= i < pieces(path->0, ':').len() && file@ == #[trigger] pieces(path->0, ':')[i]
                    + seq!['/'] + cmd,
            Step::ReadPath => times <= 1,
        },
{
    lemma_told_the_truth(cmd, path, exists_at, times);
    let at = told_the_truth(begun(cmd), path, exists_at, times);
    law_search_resolves(cmd, at, path, exists_at);
    law_resolve_finds_the_first(cmd, path, exists_at);
    if let Step::Probe(file) = step {
        if let SearchView::Dirs(c, dirs) = at {
            law_slash_makes_a_path(dirs[0], cmd);
            let all = pieces(path->0, ':');
            let k = all.len() - dirs.len();
            assert(dirs[0] == all[k]);
            assert(file@ == all[k] + seq!['/'] + cmd);
        }
    }
}

/// What a search knows is true of the command that it began with.
proof fn lemma_told_the_truth(
    cmd: Seq<char>,
    path: Option<Seq<char>>,
    exists_at: spec_fn(Seq<char>) -> bool,
    times: nat,
)
    ensures
        ({
            let at = told_the_truth(begun(cmd), path, exists_at, times);
            &&& at.outcome(path, exists_at) == resolve(cmd, path, exists_at)
            &&& match at {
                SearchView::Bare(c) => c == cmd && cmd.contains('/') && times == 0,
                SearchView::NoDirs(c) => c == cmd && times <= 1,
                SearchView::Dirs(c, dirs) => c == cmd && path is Some && dirs.len() <= pieces(
                    path->0,
                    ':',
                ).len() && dirs == pieces(path->0, ':').skip(
                    pieces(path->0, ':').len() - dirs.len(),
                ),
                SearchView::Found(_) => true,
                SearchView::NoPath => path is None,
            }
        }),
    decreases times,
{
    law_search_resolves(cmd, begun(cmd), path, exists_at);
    if times > 0 {
        let before = told_the_truth(begun(cmd), path, exists_at, (times - 1) as nat);
        lemma_told_the_truth(cmd, path, exists_at, (times - 1) as nat);
        law_search_resolves(cmd, before, path, exists_at);
        let at = told_the_truth(begun(cmd), path, exists_at, times);
        if let SearchView::Dirs(_, dirs) = at {
            let all = pieces(path->0, ':');
            assert(dirs =~= all.skip(all.len() - dirs.len()));
        }
    }
}

/// A search says one thing at a time: it asks about the command where that is a path, and else about
/// the command in the first directory that is left; it asks for **PATH** exactly while it knows no
/// directories; and it is over exactly if the program was found, no directory is left, or there is
/// no **PATH**.
pub proof fn law_search_says_what_is_next(
    step: Step,
    cmd: Seq<char>,
    dirs: Seq<Seq<char>>,
    file: Seq<char>,
)
    ensures
        step.fits(SearchView::Bare(cmd)) <==> (step matches Step::Probe(f) && f@ == cmd),
        step.fits(SearchView::NoDirs(cmd)) <==> step is ReadPath,
        dirs.len() > 0 ==> (step.fits(SearchView::Dirs(cmd, dirs)) <==> (step matches Step::Probe(f)
            && f@ == dirs[0] + seq!['/'] + cmd)),
        step.fits(SearchView::Dirs(cmd, Seq::empty())) <==> (step matches Step::Done(
            Err(Error::NotFound(c)),
        ) && c@ == cmd),
        step.fits(SearchView::Found(file)) <==> (step matches Step::Done(Ok(f)) && f@ == file),
        step.fits(SearchView::NoPath) <==> step == Step::Done(Err::<String, Error>(Error::Path)),
{
    if dirs.len() > 0 {
        law_slash_makes_a_path(dirs[0], cmd);
    }
}

/// An answer leads to the next question: a file that is there ends the search, one that is not leads
/// to the next directory or, after the command itself, to **PATH**, whose directories are then
/// looked through in order. An answer to something else changes nothing.
pub proof fn law_search_goes_on_in_order(
    search: SearchView,
    cmd: Seq<char>,
    dirs: Seq<Seq<char>>,
    path: Option<Seq<char>>,
    there: bool,
)
    ensures
        SearchView::Bare(cmd).probed(true) == SearchView::Found(cmd),
        SearchView::Bare(cmd).probed(false) == SearchView::NoDirs(cmd),
        dirs.len() > 0 ==> {
            &&& SearchView::Dirs(cmd, dirs).probed(true) == SearchView::Found(
                dirs[0] + seq!['/'] + cmd,
            )
            &&& SearchView::Dirs(cmd, dirs).probed(false) == SearchView::Dirs(cmd, dirs.skip(1))
        },
        SearchView::NoDirs(cmd).with_path(None) == SearchView::NoPath,
        path matches Some(p) ==> SearchView::NoDirs(cmd).with_path(path) == SearchView::Dirs(
            cmd,
            pieces(p, ':'),
        ),
        !(search is NoDirs) ==> search.with_path(path) == search,
        search is NoDirs || search is Found || search is NoPath ==> search.probed(there) == search,
        cmd.contains('/') ==> begun(cmd) == SearchView::Bare(cmd),
        !cmd.contains('/') ==> begun(cmd) == SearchView::NoDirs(cmd),
{
    if dirs.len() > 0 {
        law_slash_makes_a_path(dirs[0], cmd);
        assert(dirs.drop_first() =~= dirs.skip(1));
    }
}

} // verus!
