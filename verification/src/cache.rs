//! The text of a cache: a list of arguments, written so that every list can be read back.
//!
//! Arguments are written with a blank between any two, and the text is taken to pieces at its
//! blanks. Not every list can be read back from that: an argument may hold a blank, and no
//! arguments make the same text as one that is empty. Such a list is quoted, and its text begins
//! with a mark: a blank or a backslash that belongs to an argument has a backslash before it, and
//! an argument that is empty is written as a backslash and an `e`.

use crate::text::{
    free_of, holds, join, joined, law_pieces_of_joined_restore_list, law_separator_stands_between,
    pieces, split, texts,
};
use vstd::prelude::*;

verus! {

/// A character of an argument, as it is written.
pub open spec fn quoted_char(c: char) -> Seq<char> {
    if c == ' ' || c == '\\' {
        seq!['\\', c]
    } else {
        seq![c]
    }
}

/// The characters of an argument, as they are written.
pub open spec fn quoted_chars(arg: Seq<char>) -> Seq<char>
    decreases arg.len(),
{
    if arg.len() == 0 {
        Seq::empty()
    } else {
        quoted_chars(arg.drop_last()) + quoted_char(arg.last())
    }
}

/// An argument, as it is written.
pub open spec fn quoted_arg(arg: Seq<char>) -> Seq<char> {
    if arg.len() == 0 {
        seq!['\\', 'e']
    } else {
        quoted_chars(arg)
    }
}

/// Arguments, each as it is written.
pub open spec fn quoted_args(args: Seq<Seq<char>>) -> Seq<Seq<char>> {
    Seq::new(args.len(), |i: int| quoted_arg(args[i]))
}

/// A list of arguments, quoted.
pub open spec fn quoted(args: Seq<Seq<char>>) -> Seq<char> {
    joined(quoted_args(args), ' ')
}

/// How far a list of arguments has been read.
#[verifier::ext_equal]
pub struct Reading {
    /// The arguments that have ended.
    pub done: Seq<Seq<char>>,
    /// What was read of the next one.
    pub begun: Seq<char>,
    /// Whether the last character was a backslash that belongs to the one to come.
    pub escaped: bool,
}

impl Reading {
    /// One more character is read.
    pub open spec fn after(self, c: char) -> Reading {
        if self.escaped {
            Reading {
                begun: if c == 'e' {
                    self.begun
                } else {
                    self.begun.push(c)
                },
                escaped: false,
                ..self
            }
        } else if c == '\\' {
            Reading { escaped: true, ..self }
        } else if c == ' ' {
            Reading { done: self.done.push(self.begun), begun: Seq::empty(), ..self }
        } else {
            Reading { begun: self.begun.push(c), ..self }
        }
    }
}

/// How far a list of arguments has been read once this text was.
pub open spec fn reading(text: Seq<char>) -> Reading
    decreases text.len(),
{
    if text.len() == 0 {
        Reading { done: Seq::empty(), begun: Seq::empty(), escaped: false }
    } else {
        reading(text.drop_last()).after(text.last())
    }
}

/// The arguments of a list that was quoted. A backslash at its end stands for itself.
pub open spec fn unquoted(text: Seq<char>) -> Seq<Seq<char>> {
    if text.len() == 0 {
        Seq::empty()
    } else {
        let end = reading(text);
        end.done.push(
            if end.escaped {
                end.begun.push('\\')
            } else {
                end.begun
            },
        )
    }
}

/// The character that a text begins with whose arguments are quoted.
pub const MARK: char = '\u{1}';

/// The arguments of the text are quoted.
pub open spec fn is_marked(text: Seq<char>) -> bool {
    text.len() > 0 && text[0] == MARK
}

/// The list can be read back though its arguments are written as they stand.
pub open spec fn is_plain(args: Seq<Seq<char>>) -> bool {
    args.len() > 0 && free_of(args, ' ') && !is_marked(joined(args, ' '))
}

/// The text of a list of arguments.
pub open spec fn contents(args: Seq<Seq<char>>) -> Seq<char> {
    if is_plain(args) {
        joined(args, ' ')
    } else {
        seq![MARK] + quoted(args)
    }
}

/// The arguments that a text holds.
pub open spec fn arguments(text: Seq<char>) -> Seq<Seq<char>> {
    if is_marked(text) {
        unquoted(text.skip(1))
    } else {
        pieces(text, ' ')
    }
}

/// Quotes an argument.
fn quote_arg(arg: &str) -> (text: String)
    ensures
        text@ == quoted_arg(arg@),
{
    let mut text = String::new();
    let mut empty = true;
    for c in it: arg.chars()
        invariant
            it.seq() == arg@,
            text@ == quoted_chars(arg@.take(it.index())),
            empty == (it.index() == 0),
    {
        let ghost next = arg@.take(it.index() + 1);
        let ghost before = text@;
        assert(next.drop_last() =~= arg@.take(it.index()));
        assert(next.last() == c);
        if c == ' ' || c == '\\' {
            text.push('\\');
        }
        text.push(c);
        empty = false;
        assert(text@ =~= before + quoted_char(c));
    }
    assert(arg@.take(arg@.len() as int) =~= arg@);
    if empty {
        text.push('\\');
        text.push('e');
        assert(text@ =~= seq!['\\', 'e']);
    }
    text
}

/// Quotes a list of arguments.
fn quote(args: &[String]) -> (text: String)
    ensures
        text@ == quoted(texts(args@)),
{
    let mut list: Vec<String> = Vec::new();
    let mut i: usize = 0;
    while i < args.len()
        invariant
            i <= args@.len(),
            texts(list@) == quoted_args(texts(args@)).take(i as int),
        decreases args@.len() - i,
    {
        let ghost listed = texts(list@);
        list.push(quote_arg(args[i].as_str()));
        assert(texts(list@) =~= listed.push(quoted_arg(args@[i as int]@)));
        assert(texts(list@) =~= quoted_args(texts(args@)).take(i + 1));
        i += 1;
    }
    assert(texts(list@) =~= quoted_args(texts(args@)));
    join(list.as_slice(), ' ')
}

/// Reads a list of arguments that was quoted.
fn unquote(text: &str) -> (args: Vec<String>)
    ensures
        texts(args@) == unquoted(text@),
{
    let mut done: Vec<String> = Vec::new();
    let mut begun = String::new();
    let mut escaped = false;
    let mut empty = true;
    assert(texts(done@) =~= Seq::empty());
    for c in it: text.chars()
        invariant
            it.seq() == text@,
            reading(text@.take(it.index())) == (Reading {
                done: texts(done@),
                begun: begun@,
                escaped,
            }),
            empty == (it.index() == 0),
    {
        let ghost next = text@.take(it.index() + 1);
        let ghost listed = texts(done@);
        let ghost part = begun@;
        assert(next.drop_last() =~= text@.take(it.index()));
        assert(next.last() == c);
        empty = false;
        if escaped {
            escaped = false;
            if c != 'e' {
                begun.push(c);
            }
        } else if c == '\\' {
            escaped = true;
        } else if c == ' ' {
            done.push(begun);
            begun = String::new();
            assert(texts(done@) =~= listed.push(part));
        } else {
            begun.push(c);
        }
        assert(reading(next) =~= (Reading { done: texts(done@), begun: begun@, escaped }));
    }
    assert(text@.take(text@.len() as int) =~= text@);
    if empty {
        assert(texts(done@) =~= Seq::empty());
        return done;
    }
    if escaped {
        begun.push('\\');
    }
    let ghost listed = texts(done@);
    let ghost part = begun@;
    done.push(begun);
    assert(texts(done@) =~= listed.push(part));
    done
}

/// Whether the arguments of a text are quoted, and the text after its first character.
fn unmark(text: &str) -> (split: (bool, String))
    ensures
        split.0 == is_marked(text@),
        text@.len() > 0 ==> split.1@ == text@.skip(1),
{
    let mut marked = false;
    let mut first = true;
    let mut rest = String::new();
    for c in it: text.chars()
        invariant
            it.seq() == text@,
            first == (it.index() == 0),
            first ==> !marked && rest@.len() == 0,
            !first ==> marked == (text@[0] == MARK) && rest@ == text@.subrange(1, it.index() as int),
    {
        assert(c == text@[it.index() as int]);
        if first {
            marked = c == MARK;
            first = false;
            assert(rest@ =~= text@.subrange(1, 1));
        } else {
            rest.push(c);
            assert(rest@ =~= text@.subrange(1, it.index() + 1));
        }
    }
    assert(text@.len() > 0 ==> text@.subrange(1, text@.len() as int) =~= text@.skip(1));
    (marked, rest)
}

/// Whether no argument holds a blank.
fn without_blanks(args: &[String]) -> (without: bool)
    ensures
        without == free_of(texts(args@), ' '),
{
    let mut i: usize = 0;
    while i < args.len()
        invariant
            i <= args@.len(),
            forall|j: int| 0 <= j < i ==> !(#[trigger] args@[j])@.contains(' '),
        decreases args@.len() - i,
    {
        if holds(args[i].as_str(), ' ') {
            assert(texts(args@)[i as int].contains(' '));
            return false;
        }
        i += 1;
    }
    true
}

/// Writes a list of arguments.
pub fn write_contents(args: &[String]) -> (text: String)
    ensures
        text@ == contents(texts(args@)),
{
    if args.len() > 0 && without_blanks(args) {
        let text = join(args, ' ');
        if !unmark(text.as_str()).0 {
            return text;
        }
    }
    let mut text = String::new();
    text.push(MARK);
    text.append(quote(args).as_str());
    assert(text@ =~= seq![MARK] + quoted(texts(args@)));
    text
}

/// Reads a list of arguments.
pub fn read_arguments(text: &str) -> (args: Vec<String>)
    ensures
        texts(args@) == arguments(text@),
{
    let (marked, rest) = unmark(text);
    if marked {
        unquote(rest.as_str())
    } else {
        split(text, ' ')
    }
}

// ---------------------------------------------------------------------------
// What is written can be read
// ---------------------------------------------------------------------------

/// The characters of an argument are read back as they were.
proof fn lemma_chars(head: Seq<char>, arg: Seq<char>)
    requires
        !reading(head).escaped,
    ensures
        reading(head + quoted_chars(arg)) == (Reading {
            begun: reading(head).begun + arg,
            ..reading(head)
        }),
    decreases arg.len(),
{
    let before = reading(head);
    if arg.len() == 0 {
        assert(head + quoted_chars(arg) =~= head);
        assert(before.begun + arg =~= before.begun);
    } else {
        let init = arg.drop_last();
        let c = arg.last();
        lemma_chars(head, init);
        let text = head + quoted_chars(init);
        let all = head + quoted_chars(arg);
        assert(before.begun + arg =~= (before.begun + init).push(c));
        if c == ' ' || c == '\\' {
            assert(all =~= text.push('\\').push(c));
            assert(text.push('\\').drop_last() =~= text);
            assert(reading(text.push('\\')) =~= (Reading { escaped: true, ..reading(text) }));
            assert(text.push('\\').push(c).drop_last() =~= text.push('\\'));
        } else {
            assert(all =~= text.push(c));
            assert(text.push(c).drop_last() =~= text);
        }
        assert(reading(all) =~= (Reading { begun: before.begun + arg, ..before }));
    }
}

/// An argument is read back as it was.
proof fn lemma_arg(head: Seq<char>, arg: Seq<char>)
    requires
        !reading(head).escaped,
        reading(head).begun.len() == 0,
    ensures
        reading(head + quoted_arg(arg)) == (Reading { begun: arg, ..reading(head) }),
{
    let before = reading(head);
    if arg.len() == 0 {
        let all = head + quoted_arg(arg);
        assert(all =~= head.push('\\').push('e'));
        assert(head.push('\\').drop_last() =~= head);
        assert(reading(head.push('\\')) =~= (Reading { escaped: true, ..before }));
        assert(head.push('\\').push('e').drop_last() =~= head.push('\\'));
        assert(reading(all) =~= (Reading { begun: arg, ..before }));
    } else {
        lemma_chars(head, arg);
        assert(before.begun + arg =~= arg);
    }
}

/// All arguments but the last have ended once the list was read.
proof fn lemma_args(args: Seq<Seq<char>>)
    requires
        args.len() > 0,
    ensures
        quoted(args).len() > 0,
        reading(quoted(args)) == (Reading {
            done: args.drop_last(),
            begun: args.last(),
            escaped: false,
        }),
    decreases args.len(),
{
    let last = args.last();
    let written = quoted_args(args);
    assert(written.last() == quoted_arg(last));
    lemma_arg_is_written(last);
    if args.len() == 1 {
        lemma_arg(Seq::empty(), last);
        assert(Seq::<char>::empty() + quoted_arg(last) =~= quoted(args));
        assert(args.drop_last() =~= Seq::empty());
    } else {
        let init = args.drop_last();
        lemma_args(init);
        assert(written.drop_last() =~= quoted_args(init));
        let head = quoted(init).push(' ');
        assert(head.drop_last() =~= quoted(init));
        assert(reading(head).done =~= init.drop_last().push(init.last()));
        assert(reading(head).done =~= init);
        lemma_arg(head, last);
    }
}

/// Something is written for every argument.
proof fn lemma_arg_is_written(arg: Seq<char>)
    ensures
        quoted_arg(arg).len() > 0,
{
}

/// Every list of arguments that is quoted is read back as it was.
proof fn lemma_quoted_is_read_back(args: Seq<Seq<char>>)
    ensures
        unquoted(quoted(args)) == args,
{
    if args.len() == 0 {
        assert(unquoted(quoted(args)) =~= args);
    } else {
        lemma_args(args);
        assert(args.drop_last().push(args.last()) =~= args);
    }
}

/// Every list of arguments that is written is read back as it was: whatever the arguments hold,
/// and also where there are none.
pub proof fn law_written_arguments_are_read_back(args: Seq<Seq<char>>)
    ensures
        arguments(contents(args)) == args,
{
    if is_plain(args) {
        law_pieces_of_joined_restore_list(args, ' ');
    } else {
        lemma_quoted_is_read_back(args);
        assert((seq![MARK] + quoted(args)).skip(1) =~= quoted(args));
    }
}

/// Nothing is quoted that need not be: arguments without blanks are written as they stand, with a
/// blank between any two, also those that are empty or hold backslashes, unless that text begins
/// with the mark. A text that does not begin with the mark is taken to pieces at its blanks.
pub proof fn law_only_what_must_be_is_quoted(args: Seq<Seq<char>>, text: Seq<char>)
    ensures
        args.len() > 0 && (forall|i: int, j: int|
            0 <= i < args.len() && 0 <= j < args[i].len() ==> (#[trigger] args[i][j]) != ' ') && (
        joined(args, ' ').len() == 0 || joined(args, ' ')[0] != '\u{1}') ==> contents(args)
            == joined(args, ' '),
        text.len() == 0 || text[0] != '\u{1}' ==> arguments(text) == pieces(text, ' '),
        contents(args) == joined(args, ' ') || contents(args)[0] == '\u{1}',
        args.len() > 0 && free_of(args, ' ') && !is_marked(joined(args, ' ')) ==> contents(args)
            == joined(args, ' '),
        !is_marked(text) ==> arguments(text) == pieces(text, ' '),
{
    if forall|i: int, j: int|
        0 <= i < args.len() && 0 <= j < args[i].len() ==> (#[trigger] args[i][j]) != ' ' {
        assert forall|i: int| 0 <= i < args.len() implies !(#[trigger] args[i]).contains(' ') by {
            if args[i].contains(' ') {
                let j = choose|j: int| 0 <= j < args[i].len() && args[i][j] == ' ';
                assert(args[i][j] != ' ');
            }
        }
    }
}

/// How a list is quoted: what is written for two runs of characters is what is written for each, one
/// after the other; a blank or a backslash has a backslash before it, every other character stands
/// for itself, an empty argument is a backslash and an `e`, and a blank stands between any two
/// arguments.
pub proof fn law_blanks_and_backslashes_are_quoted(
    one: Seq<char>,
    more: Seq<char>,
    c: char,
    args: Seq<Seq<char>>,
    others: Seq<Seq<char>>,
)
    ensures
        quoted_chars(one + more) == quoted_chars(one) + quoted_chars(more),
        quoted_chars(seq![' ']) == seq!['\\', ' '],
        quoted_chars(seq!['\\']) == seq!['\\', '\\'],
        c != ' ' && c != '\\' ==> quoted_chars(seq![c]) == seq![c],
        quoted(seq![Seq::<char>::empty()]) == seq!['\\', 'e'],
        one.len() > 0 ==> quoted(seq![one]) == quoted_chars(one),
        args.len() > 0 && others.len() > 0 ==> quoted(args + others) == quoted(args) + seq![' ']
            + quoted(others),
        quoted(Seq::<Seq<char>>::empty()).len() == 0,
{
    lemma_quoted_chars_add_up(one, more);
    let none = Seq::<char>::empty();
    assert(quoted_chars(none) =~= none);
    assert(seq![' '].drop_last() =~= none);
    assert(seq!['\\'].drop_last() =~= none);
    assert(seq![c].drop_last() =~= none);
    assert(quoted_chars(seq![' ']) =~= seq!['\\', ' ']);
    assert(quoted_chars(seq!['\\']) =~= seq!['\\', '\\']);
    if c != ' ' && c != '\\' {
        assert(quoted_chars(seq![c]) =~= seq![c]);
    }
    assert(quoted_args(seq![none])[0] == quoted_arg(none));
    assert(quoted_args(seq![one])[0] == quoted_arg(one));
    if args.len() > 0 && others.len() > 0 {
        assert(quoted_args(args + others) =~= quoted_args(args) + quoted_args(others));
        law_separator_stands_between(quoted_args(args), quoted_args(others), one, ' ');
    }
}

proof fn lemma_quoted_chars_add_up(one: Seq<char>, more: Seq<char>)
    ensures
        quoted_chars(one + more) == quoted_chars(one) + quoted_chars(more),
    decreases more.len(),
{
    if more.len() == 0 {
        assert(one + more =~= one);
        assert(quoted_chars(one) + quoted_chars(more) =~= quoted_chars(one));
    } else {
        lemma_quoted_chars_add_up(one, more.drop_last());
        assert((one + more).drop_last() =~= one + more.drop_last());
        assert(quoted_chars(one + more) =~= quoted_chars(one) + quoted_chars(more));
    }
}

/// How a quoted list is read, whoever wrote it: a blank that has no backslash before it ends an
/// argument; a character that has one stands for itself, but an `e` for nothing; every other one
/// stands for itself; a backslash at the end does too; and nothing at all is no argument.
pub proof fn law_quoted_text_is_read_in_order(text: Seq<char>, c: char)
    ensures
        unquoted(Seq::<char>::empty()).len() == 0,
        text.len() > 0 && !reading(text).escaped ==> {
            let read = unquoted(text);
            let ended = read.drop_last();
            let last = read.last();
            &&& unquoted(text.push(' ')) == read.push(Seq::empty())
            &&& unquoted(text.push('\\')) == ended.push(last.push('\\'))
            &&& unquoted(text.push('\\').push('e')) == read
            &&& c != 'e' ==> unquoted(text.push('\\').push(c)) == ended.push(last.push(c))
            &&& c != ' ' && c != '\\' ==> unquoted(text.push(c)) == ended.push(last.push(c))
            &&& reading(text.push('\\')).escaped
            &&& c != '\\' ==> !reading(text.push(c)).escaped
            &&& !reading(text.push('\\').push(c)).escaped
        },
{
    if text.len() > 0 && !reading(text).escaped {
        let slash = text.push('\\');
        let end = reading(text);
        assert(unquoted(text).drop_last() =~= end.done);
        assert(text.push(' ').drop_last() =~= text);
        assert(slash.drop_last() =~= text);
        assert(text.push(c).drop_last() =~= text);
        assert(slash.push('e').drop_last() =~= slash);
        assert(slash.push(c).drop_last() =~= slash);
        assert(reading(slash) == (Reading { escaped: true, ..end }));
    }
}

} // verus!
