//! What a child writes, as it arrives: bytes go in at one end as they are read from the child's
//! pipe, and come out at the other as lines, as a number of bytes, or all at once.

use crate::handle::Error;
use crate::system::Progress;
use crate::text::{from_utf8_lossy, lemma_ascii_byte, lossy};
use std::collections::VecDeque;
use vstd::prelude::*;
use vstd::utf8::*;

verus! {

/// The byte that ends a line.
pub const NEWLINE: u8 = 10;

/// The output or error stream of a process.
///
/// The stream can be read as the child writes it, with [`Stream::read_line`] or
/// [`Stream::read_bytes`], or all at once, with [`Stream::read_blocking`]. What has been read is
/// gone from the stream: it is not read again.
///
/// Nothing here blocks. A read that has to wait for the child says [`Progress::Pending`] and
/// leaves the stream as it is; it is to be made again once more bytes have arrived, or the
/// stream has ended.
#[derive(Debug)]
pub struct Stream {
    /// The end of the pipe that the child's bytes come from.
    fd: i32,
    /// What has arrived and has not been read.
    buffer: VecDeque<u8>,
    /// Whether the stream has ended.
    finished: bool,
    /// Whether the worker that reads the pipe has not been joined.
    working: bool,
}

/// A stream, seen from outside.
#[verifier::ext_equal]
pub struct StreamView {
    /// The end of the pipe that the child's bytes come from.
    pub fd: i32,
    /// What has arrived and has not been read.
    pub buffer: Seq<u8>,
    /// Whether the stream has ended.
    pub finished: bool,
    /// Whether the worker that reads the pipe has not been joined.
    pub working: bool,
}

impl View for Stream {
    type V = StreamView;

    closed spec fn view(&self) -> StreamView {
        StreamView {
            fd: self.fd,
            buffer: self.buffer@,
            finished: self.finished,
            working: self.working,
        }
    }
}

/// A stream that nothing has arrived on yet.
pub open spec fn fresh_stream(fd: i32) -> StreamView {
    StreamView { fd, buffer: Seq::empty(), finished: false, working: true }
}

/// The number of bytes up to and with the first line end, or of all bytes where there is none.
pub open spec fn line_length(buffer: Seq<u8>) -> int
    decreases buffer.len(),
{
    if buffer.len() == 0 {
        0
    } else if buffer[0] == NEWLINE {
        1
    } else {
        1 + line_length(buffer.drop_first())
    }
}

/// The first line, with its line end if it has one.
pub open spec fn first_line(buffer: Seq<u8>) -> Seq<u8> {
    buffer.take(line_length(buffer))
}

/// What comes after the first line.
pub open spec fn after_line(buffer: Seq<u8>) -> Seq<u8> {
    buffer.skip(line_length(buffer))
}

/// A line can be read: one has ended, or there is a last one.
pub open spec fn line_ready(stream: StreamView) -> bool {
    stream.buffer.contains(NEWLINE) || (stream.finished && stream.buffer.len() > 0)
}

/// More bytes are asked for than will ever be there.
pub open spec fn falls_short(stream: StreamView, bytes: Option<usize>) -> bool {
    bytes matches Some(n) && n > stream.buffer.len() && stream.finished
}

/// A line was read, and this is its text. Where it has ended, its text and that of what comes after
/// it are together the text of all that was there.
pub open spec fn line_read(before: StreamView, text: Seq<char>, after: StreamView) -> bool {
    &&& line_ready(before)
    &&& text == lossy(first_line(before.buffer))
    &&& valid_utf8(first_line(before.buffer)) ==> text == decode_utf8(first_line(before.buffer))
    &&& before.buffer.contains(NEWLINE) ==> lossy(before.buffer) == text + lossy(after.buffer)
    &&& after == (StreamView { buffer: after_line(before.buffer), ..before })
}

/// The number of bytes that a read takes, or nothing while they are not there.
pub open spec fn bytes_ready(stream: StreamView, bytes: Option<usize>) -> Option<int> {
    match bytes {
        Some(n) => if n <= stream.buffer.len() {
            Some(n as int)
        } else {
            None
        },
        None => if stream.buffer.len() > 0 {
            Some(stream.buffer.len() as int)
        } else {
            None
        },
    }
}

/// A line is within the bytes, and takes at least one where there is any.
pub proof fn lemma_line_length(buffer: Seq<u8>)
    ensures
        0 <= line_length(buffer) <= buffer.len(),
        buffer.len() > 0 ==> line_length(buffer) > 0,
    decreases buffer.len(),
{
    if buffer.len() > 0 && buffer[0] != NEWLINE {
        lemma_line_length(buffer.drop_first());
    }
}

proof fn lemma_line_length_at(buffer: Seq<u8>, end: int)
    requires
        0 <= end < buffer.len(),
        buffer[end] == NEWLINE,
        forall|j: int| 0 <= j < end ==> buffer[j] != NEWLINE,
    ensures
        line_length(buffer) == end + 1,
    decreases buffer.len(),
{
    if end > 0 {
        assert(buffer[0] != NEWLINE);
        let rest = buffer.drop_first();
        assert forall|j: int| 0 <= j < end - 1 implies rest[j] != NEWLINE by {
            assert(buffer[j + 1] != NEWLINE);
        }
        lemma_line_length_at(rest, end - 1);
    }
}

proof fn lemma_line_length_without(buffer: Seq<u8>)
    requires
        !buffer.contains(NEWLINE),
    ensures
        line_length(buffer) == buffer.len(),
    decreases buffer.len(),
{
    if buffer.len() > 0 {
        assert(buffer.contains(buffer[0]));
        let rest = buffer.drop_first();
        assert forall|j: int| 0 <= j < rest.len() implies rest[j] != NEWLINE by {
            assert(buffer.contains(buffer[j + 1]));
        }
        lemma_line_length_without(rest);
    }
}

impl Stream {
    /// A stream of the bytes that will be read from `fd`.
    pub fn new(fd: i32) -> (stream: Self)
        ensures
            stream@ == fresh_stream(fd),
    {
        Stream { fd, buffer: VecDeque::new(), finished: false, working: true }
    }

    /// The end of the pipe that the child's bytes come from.
    pub fn fd(&self) -> (fd: i32)
        ensures
            fd == self@.fd,
    {
        self.fd
    }

    /// Whether the worker that reads the pipe is still to be joined.
    pub fn is_working(&self) -> (working: bool)
        ensures
            working == self@.working,
    {
        self.working
    }

    /// Takes in bytes that the child has written.
    pub fn feed(&mut self, bytes: &[u8])
        ensures
            final(self)@ == (StreamView { buffer: old(self)@.buffer + bytes@, ..old(self)@ }),
    {
        let mut i: usize = 0;
        while i < bytes.len()
            invariant
                i <= bytes.len(),
                self.buffer@ == old(self).buffer@ + bytes@.take(i as int),
                self.fd == old(self).fd,
                self.finished == old(self).finished,
                self.working == old(self).working,
            decreases bytes.len() - i,
        {
            self.buffer.push_back(bytes[i]);
            assert(bytes@.take(i + 1) =~= bytes@.take(i as int).push(bytes@[i as int]));
            assert(self.buffer@ =~= old(self).buffer@ + bytes@.take(i + 1));
            i += 1;
        }
        assert(bytes@.take(i as int) =~= bytes@);
    }

    /// Takes in that the child will write nothing more.
    pub fn finish(&mut self)
        ensures
            final(self)@ == (StreamView { finished: true, ..old(self)@ }),
    {
        self.finished = true;
    }

    /// Removes bytes from the front: so many as are asked for and there are, or all of them.
    fn drain(&mut self, upto: Option<usize>) -> (bytes: Vec<u8>)
        ensures
            bytes@ == old(self)@.buffer.take(drained(old(self)@.buffer, upto)),
            final(self)@ == (StreamView {
                buffer: old(self)@.buffer.skip(drained(old(self)@.buffer, upto)),
                ..old(self)@
            }),
    {
        let count: usize = match upto {
            Some(n) => if n > self.buffer.len() {
                self.buffer.len()
            } else {
                n
            },
            None => self.buffer.len(),
        };
        let mut bytes: Vec<u8> = Vec::new();
        while bytes.len() < count
            invariant
                count <= old(self).buffer@.len(),
                bytes@.len() <= count,
                bytes@ == old(self).buffer@.take(bytes@.len() as int),
                self.buffer@ == old(self).buffer@.skip(bytes@.len() as int),
                self.fd == old(self).fd,
                self.finished == old(self).finished,
                self.working == old(self).working,
            decreases count - bytes.len(),
        {
            let ghost before = bytes@;
            if let Some(b) = self.buffer.pop_front() {
                bytes.push(b);
            }
            assert(bytes@ =~= old(self).buffer@.take(before.len() + 1int));
            assert(self.buffer@ =~= old(self).buffer@.skip(before.len() + 1int));
        }
        bytes
    }

    /// The place of the first line end.
    fn newline(&self) -> (found: Option<usize>)
        ensures
            found is Some <==> self@.buffer.contains(NEWLINE),
            found matches Some(i) ==> line_length(self@.buffer) == i + 1 && i < usize::MAX,
    {
        let mut i: usize = 0;
        while i < self.buffer.len()
            invariant
                i <= self.buffer@.len(),
                forall|j: int| 0 <= j < i ==> self.buffer@[j] != NEWLINE,
            decreases self.buffer@.len() - i,
        {
            if self.buffer[i] == NEWLINE {
                proof {
                    lemma_line_length_at(self.buffer@, i as int);
                    assert(self.buffer@.contains(self.buffer@[i as int]));
                }
                return Some(i);
            }
            i += 1;
        }
        None
    }

    /// Reads a line, with its line end.
    ///
    /// Waits until a line has ended. Where the stream ends without one, what is left is the last
    /// line; where nothing is left, there is no line.
    pub fn read_line(&mut self) -> (line: Progress<Option<String>>)
        ensures
            line_ready(old(self)@) ==> (line matches Progress::Ready(Some(text)) && line_read(
                old(self)@,
                text@,
                final(self)@,
            )),
            !line_ready(old(self)@) ==> final(self)@ == old(self)@,
            !line_ready(old(self)@) && old(self)@.finished ==> line == Progress::Ready(
                None::<String>,
            ),
            !line_ready(old(self)@) && !old(self)@.finished ==> line == Progress::<
                Option<String>,
            >::Pending,
    {
        proof {
            lemma_line_length(self@.buffer);
        }
        if let Some(pos) = self.newline() {
            let bytes = self.drain(Some(pos + 1));
            proof {
                law_line_ends_only_at_its_end(old(self)@.buffer);
                law_lines_restore_the_bytes(old(self)@.buffer);
                assert(bytes@ == first_line(old(self)@.buffer));
                assert(bytes@ + self@.buffer == old(self)@.buffer);
            }
            return Progress::Ready(Some(from_utf8_lossy(bytes.as_slice())));
        }
        if self.finished {
            if self.buffer.len() > 0 {
                proof {
                    lemma_line_length_without(self@.buffer);
                }
                let bytes = self.drain(None);
                return Progress::Ready(Some(from_utf8_lossy(bytes.as_slice())));
            }
            return Progress::Ready(None);
        }
        Progress::Pending
    }

    /// Reads exactly so many bytes, or whatever has arrived where no number is given.
    ///
    /// Waits until the bytes are there. Where no number is given, it waits for the first one, also
    /// on a stream that has ended.
    ///
    /// ## Errors
    /// [`Error::Child`] if the stream ended before. What is left is then not read.
    pub fn read_bytes(&mut self, bytes: Option<usize>) -> (read: Progress<Result<Vec<u8>, Error>>)
        ensures
            falls_short(old(self)@, bytes) ==> {
                &&& read == Progress::Ready(Err::<Vec<u8>, Error>(Error::Child))
                &&& final(self)@ == old(self)@
            },
            !falls_short(old(self)@, bytes) ==> match bytes_ready(old(self)@, bytes) {
                Some(n) => {
                    &&& read matches Progress::Ready(Ok(v)) && v@ == old(self)@.buffer.take(n)
                    &&& final(self)@ == (StreamView {
                        buffer: old(self)@.buffer.skip(n),
                        ..old(self)@
                    })
                },
                None => read == Progress::<Result<Vec<u8>, Error>>::Pending && final(self)@
                    == old(self)@,
            },
            bytes is None && old(self)@.buffer.len() > 0 ==> {
                &&& read matches Progress::Ready(Ok(v)) && v@ == old(self)@.buffer
                &&& final(self)@.buffer.len() == 0
            },
            bytes matches Some(n) && n <= old(self)@.buffer.len() ==> {
                &&& read matches Progress::Ready(Ok(v)) && v@.len() == bytes->0 && v@
                    + final(self)@.buffer == old(self)@.buffer
            },
    {
        let ready: bool = match bytes {
            Some(n) => n <= self.buffer.len(),
            None => self.buffer.len() > 0,
        };
        if ready {
            let read = self.drain(bytes);
            assert(read@ + self@.buffer =~= old(self)@.buffer);
            Progress::Ready(Ok(read))
        } else if self.finished && bytes.is_some() {
            Progress::Ready(Err(Error::Child))
        } else {
            Progress::Pending
        }
    }

    /// Reads everything that has arrived, without waiting.
    pub fn read_all(&mut self) -> (text: String)
        ensures
            text@ == lossy(old(self)@.buffer),
            valid_utf8(old(self)@.buffer) ==> text@ == decode_utf8(old(self)@.buffer),
            final(self)@ == (StreamView { buffer: Seq::empty(), ..old(self)@ }),
    {
        let bytes = self.drain(None);
        proof {
            assert(bytes@ =~= old(self)@.buffer);
            assert(self@.buffer =~= Seq::empty());
        }
        from_utf8_lossy(bytes.as_slice())
    }

    /// Reads everything, once the worker that reads the pipe has been joined.
    ///
    /// `joined` says whether the worker ended as it should. It does not matter where there is no
    /// worker left to join.
    ///
    /// ## Errors
    /// [`Error::Child`] if the worker failed. The stream is then not read.
    pub fn read_blocking(&mut self, joined: bool) -> (text: Result<String, Error>)
        ensures
            old(self)@.working && !joined ==> {
                &&& text == Err::<String, Error>(Error::Child)
                &&& final(self)@ == (StreamView { working: false, ..old(self)@ })
            },
            !old(self)@.working || joined ==> {
                &&& text matches Ok(t) && t@ == lossy(old(self)@.buffer) && (valid_utf8(
                    old(self)@.buffer,
                ) ==> t@ == decode_utf8(old(self)@.buffer))
                &&& final(self)@ == (StreamView {
                    buffer: Seq::empty(),
                    working: false,
                    ..old(self)@
                })
            },
    {
        match self.wait(joined) {
            Ok(()) => Ok(self.read_all()),
            Err(e) => Err(e),
        }
    }

    /// Takes in that the worker that reads the pipe has been joined, if it had not been before.
    ///
    /// ## Errors
    /// [`Error::Child`] if the worker failed.
    pub fn wait(&mut self, joined: bool) -> (res: Result<(), Error>)
        ensures
            res == (if old(self)@.working && !joined {
                Err::<(), Error>(Error::Child)
            } else {
                Ok::<(), Error>(())
            }),
            final(self)@ == (StreamView { working: false, ..old(self)@ }),
    {
        if self.working {
            self.working = false;
            if joined {
                Ok(())
            } else {
                Err(Error::Child)
            }
        } else {
            Ok(())
        }
    }
}

/// The number of bytes that are there to be removed.
pub open spec fn drained(buffer: Seq<u8>, upto: Option<usize>) -> int {
    match upto {
        Some(n) => if n > buffer.len() {
            buffer.len() as int
        } else {
            n as int
        },
        None => buffer.len() as int,
    }
}

/// The message that a line of a child's output is logged as.
pub fn log_message(name: &str, line: &str) -> (message: String)
    ensures
        message@ == name@ + seq![':', ' '] + line@,
{
    let mut message = name.to_owned();
    message.push(':');
    message.push(' ');
    message.append(line);
    assert(message@ =~= name@ + seq![':', ' '] + line@);
    message
}

// ---------------------------------------------------------------------------
// What is read is what was written
// ---------------------------------------------------------------------------

/// The lines of a run of bytes.
pub open spec fn lines(buffer: Seq<u8>) -> Seq<Seq<u8>>
    decreases buffer.len(),
{
    if buffer.len() == 0 {
        Seq::empty()
    } else {
        proof {
            lemma_line_length(buffer);
        }
        seq![first_line(buffer)] + lines(after_line(buffer))
    }
}

/// The parts, one after the other.
pub open spec fn concatenated<A>(list: Seq<Seq<A>>) -> Seq<A>
    decreases list.len(),
{
    if list.len() == 0 {
        Seq::empty()
    } else {
        list[0] + concatenated(list.drop_first())
    }
}

/// Reading line after line gives back every byte, in order: a line and what is left after it
/// are together what was there, and so are all the lines.
pub proof fn law_lines_restore_the_bytes(buffer: Seq<u8>)
    ensures
        first_line(buffer) + after_line(buffer) == buffer,
        concatenated(lines(buffer)) == buffer,
    decreases buffer.len(),
{
    lemma_line_length(buffer);
    assert(first_line(buffer) + after_line(buffer) =~= buffer);
    if buffer.len() > 0 {
        law_lines_restore_the_bytes(after_line(buffer));
        assert(lines(buffer).drop_first() =~= lines(after_line(buffer)));
        assert(lines(buffer)[0] == first_line(buffer));
    } else {
        assert(concatenated(lines(buffer)) =~= buffer);
    }
}

/// A line holds a line end at most as its last byte, and only the last line of a stream can be
/// without one.
pub proof fn law_line_ends_only_at_its_end(buffer: Seq<u8>)
    ensures
        forall|i: int|
            0 <= i < first_line(buffer).len() - 1 ==> first_line(buffer)[i] != NEWLINE,
        buffer.contains(NEWLINE) ==> first_line(buffer).len() > 0 && first_line(buffer).last()
            == NEWLINE,
        !buffer.contains(NEWLINE) ==> first_line(buffer) == buffer,
    decreases buffer.len(),
{
    lemma_line_length(buffer);
    if buffer.len() > 0 && buffer[0] != NEWLINE {
        let rest = buffer.drop_first();
        law_line_ends_only_at_its_end(rest);
        lemma_line_length(rest);
        assert(first_line(buffer).drop_first() =~= first_line(rest));
        assert forall|i: int| 0 <= i < first_line(buffer).len() - 1 implies first_line(buffer)[i]
            != NEWLINE by {
            if i > 0 {
                assert(first_line(buffer)[i] == first_line(rest)[i - 1]);
            }
        }
        if buffer.contains(NEWLINE) {
            let i = choose|i: int| 0 <= i < buffer.len() && buffer[i] == NEWLINE;
            assert(rest[i - 1] == NEWLINE);
            assert(first_line(rest).last() == NEWLINE);
            assert(first_line(buffer).last() == first_line(rest).last());
        }
    }
    if !buffer.contains(NEWLINE) {
        lemma_line_length_without(buffer);
        assert(first_line(buffer) =~= buffer);
    }
}

/// It does not matter how the bytes arrive: a line that has ended is read the same whether or
/// not more has arrived after it.
pub proof fn law_later_bytes_do_not_change_a_line(buffer: Seq<u8>, more: Seq<u8>)
    requires
        buffer.contains(NEWLINE),
    ensures
        first_line(buffer + more) == first_line(buffer),
        after_line(buffer + more) == after_line(buffer) + more,
    decreases buffer.len(),
{
    lemma_line_length(buffer);
    lemma_line_length(buffer + more);
    if buffer[0] != NEWLINE {
        let rest = buffer.drop_first();
        let i = choose|i: int| 0 <= i < buffer.len() && buffer[i] == NEWLINE;
        assert(rest[i - 1] == NEWLINE);
        law_later_bytes_do_not_change_a_line(rest, more);
        assert((buffer + more).drop_first() =~= rest + more);
        lemma_line_length(rest);
        lemma_line_length(rest + more);
        assert(line_length(buffer + more) == 1 + line_length(rest + more));
        assert(first_line(rest + more).len() == line_length(rest + more));
        assert(first_line(rest).len() == line_length(rest));
    }
    assert(line_length(buffer + more) == line_length(buffer));
    assert(first_line(buffer + more) =~= first_line(buffer));
    assert(after_line(buffer + more) =~= after_line(buffer) + more);
}

/// A read of a number of bytes gives exactly so many. It fails exactly if the stream ended before,
/// and waits exactly as long as they can still come.
pub proof fn law_bytes_are_read_exactly(stream: StreamView, n: usize)
    ensures
        n <= stream.buffer.len() ==> bytes_ready(stream, Some(n)) == Some(n as int)
            && !falls_short(stream, Some(n)),
        n > stream.buffer.len() && stream.finished ==> falls_short(stream, Some(n)),
        n > stream.buffer.len() && !stream.finished ==> bytes_ready(stream, Some(n)) is None
            && !falls_short(stream, Some(n)),
{
}

/// The texts of lines.
pub open spec fn line_texts(list: Seq<Seq<u8>>) -> Seq<Seq<char>> {
    Seq::new(list.len(), |i: int| decode_utf8(list[i]))
}

/// A character that starts with another byte than a line end only lengthens the line.
proof fn lemma_line_after_scalar(buffer: Seq<u8>)
    requires
        valid_utf8(buffer),
        buffer.len() > 0,
        buffer[0] != NEWLINE,
    ensures
        line_length(buffer) == length_of_first_scalar(buffer) + line_length(
            pop_first_scalar(buffer),
        ),
{
    reveal_with_fuel(line_length, 5);
    let n = length_of_first_scalar(buffer);
    assert(1 <= n <= 4 && n <= buffer.len());
    let a = buffer.drop_first();
    if n == 1 {
        assert(a =~= pop_first_scalar(buffer));
    } else {
        assert(is_continuation_byte(buffer[1]));
        let b = a.drop_first();
        assert(a[0] == buffer[1]);
        if n == 2 {
            assert(b =~= pop_first_scalar(buffer));
        } else {
            assert(is_continuation_byte(buffer[2]));
            let c = b.drop_first();
            assert(b[0] == buffer[2]);
            if n == 3 {
                assert(c =~= pop_first_scalar(buffer));
            } else {
                assert(is_continuation_byte(buffer[3]));
                assert(c[0] == buffer[3]);
                assert(c.drop_first() =~= pop_first_scalar(buffer));
            }
        }
    }
}

/// A line of text ends between two characters.
proof fn lemma_line_boundary(buffer: Seq<u8>)
    requires
        valid_utf8(buffer),
    ensures
        is_char_boundary(buffer, line_length(buffer)),
    decreases buffer.len(),
{
    lemma_line_length(buffer);
    if buffer.len() > 0 {
        let rest = pop_first_scalar(buffer);
        if buffer[0] == NEWLINE {
            assert(length_of_first_scalar(buffer) == 1);
            assert(is_char_boundary(rest, 0));
        } else {
            lemma_line_after_scalar(buffer);
            lemma_line_boundary(rest);
        }
    }
}

/// Where the bytes are text, so is every line, and the texts of the lines, one after the other, are
/// the whole text.
pub proof fn law_lines_restore_the_text(buffer: Seq<u8>)
    requires
        valid_utf8(buffer),
    ensures
        forall|i: int| 0 <= i < lines(buffer).len() ==> valid_utf8(#[trigger] lines(buffer)[i]),
        concatenated(line_texts(lines(buffer))) == decode_utf8(buffer),
    decreases buffer.len(),
{
    if buffer.len() == 0 {
        assert(line_texts(lines(buffer)) =~= Seq::empty());
        assert(concatenated(line_texts(lines(buffer))) =~= decode_utf8(buffer));
    } else {
        let n = line_length(buffer);
        let first = first_line(buffer);
        let rest = after_line(buffer);
        lemma_line_length(buffer);
        lemma_line_boundary(buffer);
        valid_utf8_split(buffer, n);
        decode_utf8_split(buffer, n);
        assert(first =~= buffer.subrange(0, n));
        assert(rest =~= buffer.subrange(n, buffer.len() as int));
        law_lines_restore_the_text(rest);
        let all = lines(buffer);
        assert(all.drop_first() =~= lines(rest));
        assert forall|i: int| 0 <= i < all.len() implies valid_utf8(#[trigger] all[i]) by {
            if i > 0 {
                assert(all[i] == lines(rest)[i - 1]);
            }
        }
        assert(line_texts(all)[0] == decode_utf8(first));
        assert(line_texts(all).drop_first() =~= line_texts(lines(rest)));
    }
}

/// However many bytes are no text, reading line after line until there is none gives the text of
/// the whole: the lines' texts, one after the other, are the text of all the bytes.
pub proof fn law_line_texts_add_up(streams: Seq<StreamView>, read: Seq<Seq<char>>)
    requires
        streams.len() == read.len() + 1,
        streams[0].finished,
        streams[0].buffer.len() > 0,
        forall|i: int|
            #![trigger read[i]]
            0 <= i < read.len() ==> line_read(streams[i], read[i], streams[i + 1]),
        !line_ready(streams.last()),
    ensures
        concatenated(read) == lossy(streams[0].buffer),
        read.len() == lines(streams[0].buffer).len(),
        forall|i: int|
            0 <= i < read.len() ==> #[trigger] read[i] == lossy(lines(streams[0].buffer)[i]),
        streams.last().buffer.len() == 0,
    decreases read.len(),
{
    let first = streams[0].buffer;
    if read.len() == 0 {
        assert(line_ready(streams[0]));
    } else {
        assert(line_read(streams[0], read[0], streams[1]));
        let rest = streams[1].buffer;
        let later = streams.drop_first();
        let others = read.drop_first();
        assert(later.last() == streams.last());
        lemma_line_length(first);
        law_lines_restore_the_bytes(first);
        law_line_ends_only_at_its_end(first);
        assert(lines(first)[0] == first_line(first));
        assert forall|i: int|
            #![trigger others[i]]
            0 <= i < others.len() implies line_read(later[i], others[i], later[i + 1]) by {
            assert(others[i] == read[i + 1]);
        }
        if rest.len() == 0 {
            if others.len() > 0 {
                assert(others[0] == read[1]);
                assert(line_ready(streams[1]));
            }
            assert(first_line(first) =~= first);
            assert(concatenated(others) =~= Seq::empty());
            assert(concatenated(read) =~= read[0]);
            assert(lines(rest) =~= Seq::empty());
        } else {
            law_line_texts_add_up(later, others);
            if !first.contains(NEWLINE) {
                assert(rest =~= Seq::empty());
            }
            assert forall|i: int| 0 <= i < read.len() implies #[trigger] read[i] == lossy(
                lines(first)[i],
            ) by {
                if i > 0 {
                    assert(read[i] == others[i - 1]);
                    assert(lines(first)[i] == lines(rest)[i - 1]);
                }
            }
        }
    }
}

/// No line is empty, none holds a line end before its end, and each but the last ends in one. There
/// is a line exactly if there is a byte.
pub proof fn law_lines_end_in_line_ends(buffer: Seq<u8>, i: int)
    ensures
        lines(buffer).len() == 0 <==> buffer.len() == 0,
        0 <= i < lines(buffer).len() ==> {
            let line = lines(buffer)[i];
            &&& line.len() > 0
            &&& forall|j: int| 0 <= j < line.len() - 1 ==> line[j] != NEWLINE
            &&& i < lines(buffer).len() - 1 ==> line.last() == NEWLINE
        },
    decreases buffer.len(),
{
    if buffer.len() > 0 {
        lemma_line_length(buffer);
        law_line_ends_only_at_its_end(buffer);
        let rest = after_line(buffer);
        law_lines_end_in_line_ends(rest, i - 1);
        assert(lines(buffer)[0] == first_line(buffer));
        if 0 < i < lines(buffer).len() {
            assert(lines(buffer)[i] == lines(rest)[i - 1]);
        }
        if i == 0 && lines(buffer).len() > 1 && !buffer.contains(NEWLINE) {
            assert(rest.len() == 0);
        }
    }
}

/// The same of the texts of the lines, where the bytes are text.
pub proof fn law_line_texts_end_in_line_ends(buffer: Seq<u8>, i: int)
    requires
        valid_utf8(buffer),
        0 <= i < lines(buffer).len(),
    ensures
        ({
            let text = line_texts(lines(buffer))[i];
            &&& text.len() > 0
            &&& forall|j: int| 0 <= j < text.len() - 1 ==> text[j] != '\n'
            &&& i < lines(buffer).len() - 1 ==> text.last() == '\n'
        }),
{
    law_lines_restore_the_text(buffer);
    law_lines_end_in_line_ends(buffer, i);
    lemma_line_text(lines(buffer)[i]);
}

/// The text of a line has its line end where the line has it.
proof fn lemma_line_text(line: Seq<u8>)
    requires
        valid_utf8(line),
        line.len() > 0,
        forall|j: int| 0 <= j < line.len() - 1 ==> line[j] != NEWLINE,
    ensures
        decode_utf8(line).len() > 0,
        forall|j: int| 0 <= j < decode_utf8(line).len() - 1 ==> decode_utf8(line)[j] != '\n',
        line.last() == NEWLINE ==> decode_utf8(line).last() == '\n',
    decreases line.len(),
{
    let n = length_of_first_scalar(line);
    let rest = pop_first_scalar(line);
    let text = decode_utf8(line);
    let first = take_first_scalar(line);
    assert(text == seq![decode_first_scalar(line) as char] + decode_utf8(rest));
    assert(line[0] == NEWLINE ==> n == 1);
    if rest.len() > 0 {
        assert(line[0] != NEWLINE);
        assert forall|j: int| 0 <= j < rest.len() - 1 implies rest[j] != NEWLINE by {
            assert(rest[j] == line[n + j]);
        }
        lemma_line_text(rest);
        decode_utf8_encode_utf8(line);
        decode_utf8_first_scalar(line);
        let c = seq![text[0]];
        reveal_with_fuel(encode_utf8, 2);
        assert(c.drop_first() =~= Seq::empty());
        assert(encode_utf8(c) =~= first);
        lemma_ascii_byte(c, NEWLINE);
        if text[0] == '\n' {
            assert(c[0] == NEWLINE as char);
            assert(first.contains(NEWLINE));
            let j = choose|j: int| 0 <= j < first.len() && first[j] == NEWLINE;
            assert(line[j] == NEWLINE);
        }
        assert forall|j: int| 0 <= j < text.len() - 1 implies text[j] != '\n' by {
            if j > 0 {
                assert(text[j] == decode_utf8(rest)[j - 1]);
            }
        }
        assert(rest.last() == line.last());
        assert(text.last() == decode_utf8(rest).last());
    } else {
        assert(decode_utf8(rest) =~= Seq::empty());
        if line.last() == NEWLINE {
            if n > 1 {
                assert(is_continuation_byte(line[n - 1]));
            }
            assert(line[0] == NEWLINE);
            let b = line[0];
            assert((b & 0x7F) as u32 == 10) by (bit_vector)
                requires
                    b == 10u8,
            ;
        }
    }
}

/// Something that is done with a stream.
pub enum Use {
    /// Bytes arrive.
    Feed(Seq<u8>),
    /// The stream ends.
    Finish,
    /// A line is read.
    Line,
    /// Bytes are read.
    Bytes(Option<usize>),
    /// All that has arrived is read.
    All,
}

/// The bytes that a use of a stream brings.
pub open spec fn brought(action: Use) -> Seq<u8> {
    match action {
        Use::Feed(bytes) => bytes,
        _ => Seq::empty(),
    }
}

/// The number of bytes that a use of a stream takes from its front.
pub open spec fn taken(stream: StreamView, action: Use) -> int {
    match action {
        Use::Line => if line_ready(stream) {
            line_length(stream.buffer)
        } else {
            0
        },
        Use::Bytes(bytes) => match bytes_ready(stream, bytes) {
            Some(n) => n,
            None => 0,
        },
        Use::All => stream.buffer.len() as int,
        _ => 0,
    }
}

/// A stream after a use.
pub open spec fn used(stream: StreamView, action: Use) -> StreamView {
    StreamView {
        buffer: stream.buffer.skip(taken(stream, action)) + brought(action),
        finished: stream.finished || action is Finish,
        ..stream
    }
}

/// A stream after any number of uses, all the bytes that arrived meanwhile, and all that were
/// read.
pub open spec fn history(stream: StreamView, actions: Seq<Use>) -> (StreamView, Seq<u8>, Seq<u8>)
    decreases actions.len(),
{
    if actions.len() == 0 {
        (stream, Seq::empty(), Seq::empty())
    } else {
        let (now, arrived, read) = history(stream, actions.drop_last());
        let action = actions.last();
        (
            used(now, action),
            arrived + brought(action),
            read + now.buffer.take(taken(now, action)),
        )
    }
}

/// However a stream is used, no byte is lost, none is read twice, and they keep their order: what
/// was read and then what is left are what was there and then what arrived.
pub proof fn law_every_byte_is_read_once(stream: StreamView, actions: Seq<Use>)
    ensures
        ({
            let (now, arrived, read) = history(stream, actions);
            read + now.buffer == stream.buffer + arrived
        }),
    decreases actions.len(),
{
    let (now, arrived, read) = history(stream, actions);
    if actions.len() == 0 {
        assert(read + now.buffer =~= stream.buffer + arrived);
    } else {
        let (before, early, got) = history(stream, actions.drop_last());
        let action = actions.last();
        let n = taken(before, action);
        law_every_byte_is_read_once(stream, actions.drop_last());
        lemma_line_length(before.buffer);
        assert(before.buffer.take(n) + before.buffer.skip(n) =~= before.buffer);
        assert(read + now.buffer =~= got + (before.buffer.take(n) + before.buffer.skip(n))
            + brought(action));
        assert(read + now.buffer =~= stream.buffer + arrived);
    }
}

/// A read of bytes without a number takes every byte that has arrived and leaves none. It waits
/// exactly as long as none has, and never falls short.
pub proof fn law_read_without_a_number_takes_all(stream: StreamView)
    ensures
        stream.buffer.len() > 0 ==> {
            &&& bytes_ready(stream, None) matches Some(n) && stream.buffer.take(n) == stream.buffer
                && stream.buffer.skip(n).len() == 0
        },
        stream.buffer.len() == 0 ==> bytes_ready(stream, None) is None,
        !falls_short(stream, None),
{
    assert(stream.buffer.take(stream.buffer.len() as int) =~= stream.buffer);
}

/// A line can be read exactly if a line end has arrived, or the stream has ended and anything is
/// left.
pub proof fn law_line_is_ready_once_it_ends(stream: StreamView)
    ensures
        line_ready(stream) <==> (exists|i: int|
            0 <= i < stream.buffer.len() && #[trigger] stream.buffer[i] == 10u8) || (stream.finished
            && stream.buffer.len() > 0),
{
}

/// A line that was read is the bytes up to and with the first line end, or all where there is
/// none; they are gone from the stream, and nothing else of it is touched.
pub proof fn law_line_that_was_read_is_the_first(
    before: StreamView,
    text: Seq<char>,
    after: StreamView,
    end: int,
)
    requires
        line_read(before, text, after),
        0 < end <= before.buffer.len(),
        forall|i: int| 0 <= i < end - 1 ==> #[trigger] before.buffer[i] != 10u8,
        before.buffer[end - 1] == 10u8 || (end == before.buffer.len() && before.finished),
    ensures
        text == lossy(before.buffer.take(end)),
        valid_utf8(before.buffer.take(end)) ==> text == decode_utf8(before.buffer.take(end)),
        after.buffer == before.buffer.skip(end),
        after.fd == before.fd,
        after.finished == before.finished,
        after.working == before.working,
{
    if before.buffer[end - 1] == NEWLINE {
        lemma_line_length_at(before.buffer, end - 1);
    } else {
        assert forall|i: int| 0 <= i < before.buffer.len() implies before.buffer[i] != NEWLINE by {
            if i < end - 1 {
                assert(before.buffer[i] != 10u8);
            }
        }
        assert(!before.buffer.contains(NEWLINE));
        lemma_line_length_without(before.buffer);
    }
}

/// Nothing has arrived on a new stream, it has not ended, and its worker is at work.
pub proof fn law_new_stream_is_empty(fd: i32)
    ensures
        fresh_stream(fd).fd == fd,
        fresh_stream(fd).buffer.len() == 0,
        !fresh_stream(fd).finished,
        fresh_stream(fd).working,
        !line_ready(fresh_stream(fd)),
{
}

} // verus!
