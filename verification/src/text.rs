//! The text that command lines, environments and paths are made of.

use vstd::prelude::*;
use vstd::slice::slice_to_vec;
use vstd::utf8::*;

verus! {

// ---------------------------------------------------------------------------
// What the standard library does with text
// ---------------------------------------------------------------------------

/// `String::push`: one more character stands at the end.
pub assume_specification[ String::push ](s: &mut String, c: char)
    ensures
        final(s)@ == old(s)@.push(c),
;

/// The text that stands for a run of bytes once every part that is not UTF-8 has been replaced.
pub uninterp spec fn lossy(bytes: Seq<u8>) -> Seq<char>;

/// `String::from_utf8_lossy`: the text of the bytes. Bytes that are UTF-8 throughout are
/// decoded as they stand; how a part that is not UTF-8 is replaced is left to the name. A byte of
/// ASCII is a character by itself and belongs to no part that is replaced: so where the bytes end
/// in one, whatever comes after them reads as it does alone.
#[verifier::external_body]
pub(crate) fn from_utf8_lossy(bytes: &[u8]) -> (text: String)
    ensures
        text@ == lossy(bytes@),
        valid_utf8(bytes@) ==> text@ == decode_utf8(bytes@),
        bytes@.len() > 0 && bytes@.last() < 0x80 ==> forall|rest: Seq<u8>| #[trigger]
            lossy(bytes@ + rest) == text@ + lossy(rest),
{
    String::from_utf8_lossy(bytes).into_owned()
}

/// `String::from_utf8`: the text that the bytes encode, where they are UTF-8 throughout.
#[verifier::external_body]
pub(crate) fn from_utf8(bytes: &[u8]) -> (text: Option<String>)
    ensures
        text is Some <==> valid_utf8(bytes@),
        text matches Some(t) ==> t@ == decode_utf8(bytes@),
{
    String::from_utf8(bytes.to_vec()).ok()
}

/// The text that bytes encode, where they are UTF-8 throughout.
pub open spec fn utf8_text(bytes: Seq<u8>) -> Option<Seq<char>> {
    if valid_utf8(bytes) {
        Some(decode_utf8(bytes))
    } else {
        None
    }
}

/// Whether two texts are the same.
pub fn same_text(a: &str, b: &str) -> (same: bool)
    ensures
        same == (a@ == b@),
{
    a.to_owned() == b.to_owned()
}

/// Whether a character stands in a text.
pub fn holds(text: &str, c: char) -> (held: bool)
    ensures
        held == text@.contains(c),
{
    let mut held = false;
    for d in it: text.chars()
        invariant
            it.seq() == text@,
            held == text@.take(it.index()).contains(c),
    {
        let ghost done = text@.take(it.index());
        let ghost next = text@.take(it.index() + 1);
        proof {
            assert(next =~= done.push(d));
            if done.contains(c) {
                let i = choose|i: int| 0 <= i < done.len() && done[i] == c;
                assert(next[i] == c);
            }
            assert(next[it.index() as int] == d);
        }
        if d == c {
            held = true;
        }
    }
    assert(text@.take(text@.len() as int) =~= text@);
    held
}

// ---------------------------------------------------------------------------
// Lists of text
// ---------------------------------------------------------------------------

/// A list of strings as a list of texts.
pub open spec fn texts(list: Seq<String>) -> Seq<Seq<char>> {
    Seq::new(list.len(), |i: int| list[i]@)
}

/// A list of string slices as a list of texts.
pub open spec fn str_texts(list: Seq<&str>) -> Seq<Seq<char>> {
    Seq::new(list.len(), |i: int| list[i]@)
}

/// The parts one after the other, with `sep` between any two.
pub open spec fn joined(parts: Seq<Seq<char>>, sep: char) -> Seq<char>
    decreases parts.len(),
{
    if parts.len() == 0 {
        Seq::empty()
    } else if parts.len() == 1 {
        parts[0]
    } else {
        joined(parts.drop_last(), sep).push(sep) + parts.last()
    }
}

/// The pieces of a text between the places where `sep` stands. There is always one more piece
/// than there are separators, so the empty text has one empty piece.
pub open spec fn pieces(text: Seq<char>, sep: char) -> Seq<Seq<char>>
    decreases text.len(),
{
    if text.len() == 0 {
        seq![Seq::empty()]
    } else {
        let before = pieces(text.drop_last(), sep);
        if text.last() == sep {
            before.push(Seq::empty())
        } else {
            before.drop_last().push(before.last().push(text.last()))
        }
    }
}

/// There is at least one piece.
pub proof fn lemma_pieces_nonempty(text: Seq<char>, sep: char)
    ensures
        pieces(text, sep).len() > 0,
    decreases text.len(),
{
    if text.len() > 0 {
        lemma_pieces_nonempty(text.drop_last(), sep);
    }
}

/// Joins the strings of a list.
pub fn join(list: &[String], sep: char) -> (text: String)
    ensures
        text@ == joined(texts(list@), sep),
{
    let mut text = String::new();
    let mut i: usize = 0;
    while i < list.len()
        invariant
            i <= list.len(),
            text@ == joined(texts(list@).take(i as int), sep),
        decreases list.len() - i,
    {
        let ghost done = texts(list@).take(i as int);
        let ghost next = texts(list@).take(i + 1);
        assert(next.drop_last() =~= done);
        assert(next.last() == list@[i as int]@);
        if i > 0 {
            text.push(sep);
        }
        text.append(list[i].as_str());
        assert(text@ =~= joined(next, sep));
        i += 1;
    }
    assert(texts(list@).take(i as int) =~= texts(list@));
    text
}

/// Splits a text at every `sep`.
pub fn split(text: &str, sep: char) -> (list: Vec<String>)
    ensures
        texts(list@) == pieces(text@, sep),
{
    let mut list: Vec<String> = Vec::new();
    let mut piece = String::new();
    assert(texts(list@).push(piece@) =~= pieces(text@.take(0), sep));
    for c in it: text.chars()
        invariant
            it.seq() == text@,
            texts(list@).push(piece@) == pieces(text@.take(it.index()), sep),
    {
        let ghost done = text@.take(it.index());
        let ghost next = text@.take(it.index() + 1);
        let ghost listed = texts(list@);
        let ghost begun = piece@;
        assert(next.drop_last() =~= done);
        assert(next.last() == c);
        assert(listed.push(begun).last() == begun);
        assert(listed.push(begun).drop_last() =~= listed);
        if c == sep {
            list.push(piece);
            piece = String::new();
            assert(texts(list@) =~= listed.push(begun));
        } else {
            piece.push(c);
        }
        assert(texts(list@).push(piece@) =~= pieces(next, sep));
    }
    assert(text@.take(text@.len() as int) =~= text@);
    let ghost listed = texts(list@);
    let ghost begun = piece@;
    list.push(piece);
    assert(texts(list@) =~= listed.push(begun));
    list
}

// ---------------------------------------------------------------------------
// Joining and splitting undo each other
// ---------------------------------------------------------------------------

/// No text of the list holds `sep`.
pub open spec fn free_of(list: Seq<Seq<char>>, sep: char) -> bool {
    forall|i: int| 0 <= i < list.len() ==> !(#[trigger] list[i]).contains(sep)
}

/// The pieces of a text, joined again, are the text.
pub proof fn law_joining_pieces_restores_text(text: Seq<char>, sep: char)
    ensures
        joined(pieces(text, sep), sep) == text,
    decreases text.len(),
{
    if text.len() > 0 {
        let init = text.drop_last();
        let before = pieces(init, sep);
        let all = pieces(text, sep);
        lemma_pieces_nonempty(init, sep);
        law_joining_pieces_restores_text(init, sep);
        assert(all.len() > 0);
        if text.last() == sep {
            assert(all.drop_last() =~= before);
            assert(joined(all, sep) =~= text);
        } else {
            assert(all.drop_last() =~= before.drop_last());
            assert(joined(all, sep) =~= joined(before, sep).push(text.last()));
            assert(joined(all, sep) =~= text);
        }
    }
}

/// A text that does not hold `sep` only lengthens the last piece of the text before it.
proof fn lemma_pieces_append(text: Seq<char>, tail: Seq<char>, sep: char)
    requires
        !tail.contains(sep),
    ensures
        pieces(text + tail, sep) == pieces(text, sep).drop_last().push(
            pieces(text, sep).last() + tail,
        ),
    decreases tail.len(),
{
    lemma_pieces_nonempty(text, sep);
    let before = pieces(text, sep);
    if tail.len() == 0 {
        assert(text + tail =~= text);
        assert(before.last() + tail =~= before.last());
        assert(before.drop_last().push(before.last()) =~= before);
    } else {
        let init = tail.drop_last();
        assert forall|c: char| init.contains(c) implies tail.contains(c) by {
            let i = choose|i: int| 0 <= i < init.len() && init[i] == c;
            assert(tail[i] == c);
        }
        lemma_pieces_append(text, init, sep);
        assert((text + tail).drop_last() =~= text + init);
        assert((text + tail).last() == tail.last());
        assert(tail.contains(tail.last()));
        let mid = pieces(text + init, sep);
        assert(mid.drop_last() =~= before.drop_last());
        assert((before.last() + init).push(tail.last()) =~= before.last() + tail);
    }
}

/// A list of texts that do not hold `sep`, joined and taken to pieces, is the list, unless the
/// list is empty: the empty text has one piece.
pub proof fn law_pieces_of_joined_restore_list(list: Seq<Seq<char>>, sep: char)
    requires
        list.len() > 0,
        free_of(list, sep),
    ensures
        pieces(joined(list, sep), sep) == list,
    decreases list.len(),
{
    let last = list.last();
    assert(!last.contains(sep));
    if list.len() == 1 {
        lemma_pieces_append(Seq::empty(), last, sep);
        assert(Seq::<char>::empty() + last =~= last);
        assert(pieces(Seq::<char>::empty(), sep).drop_last().push(last) =~= list);
    } else {
        let init = list.drop_last();
        assert forall|i: int| 0 <= i < init.len() implies !(#[trigger] init[i]).contains(sep) by {
            assert(init[i] == list[i]);
        }
        law_pieces_of_joined_restore_list(init, sep);
        let head = joined(init, sep).push(sep);
        assert(head.drop_last() =~= joined(init, sep));
        assert(pieces(head, sep) =~= init.push(Seq::empty()));
        lemma_pieces_append(head, last, sep);
        assert(Seq::<char>::empty() + last =~= last);
        assert(pieces(head, sep).drop_last().push(last) =~= list);
    }
}

// ---------------------------------------------------------------------------
// Text that the system can take
// ---------------------------------------------------------------------------

/// The text holds a NUL character, so it cannot be handed to the system.
pub open spec fn has_nul(text: Seq<char>) -> bool {
    text.contains('\0')
}

/// A text that cannot be handed to the system, with the place of its first NUL byte.
#[derive(Debug, PartialEq, Eq)]
pub struct NulError {
    /// The number of bytes before the first NUL byte.
    pub position: usize,
    /// The bytes of the text.
    pub bytes: Vec<u8>,
}

impl NulError {
    /// The error is about this text.
    pub open spec fn is_about(self, text: Seq<char>) -> bool {
        &&& self.bytes@ == encode_utf8(text)
        &&& self.position < self.bytes@.len()
        &&& self.bytes@[self.position as int] == 0
        &&& forall|i: int| 0 <= i < self.position ==> self.bytes@[i] != 0
    }
}

/// Of the bytes of a character, one is this ASCII byte exactly if the character is that of the
/// byte.
proof fn lemma_scalar_ascii(c: char, byte: u8)
    requires
        byte < 0x80,
    ensures
        encode_scalar(c as u32).contains(byte) <==> c == byte as char,
{
    let v = c as u32;
    char_is_scalar(c);
    let code = encode_scalar(v);
    if has_width_1_encoding(v) {
        assert((v & 0x7F) as u8 == v) by (bit_vector)
            requires
                v <= 0x7F,
        ;
        assert(code[0] == (v & 0x7F) as u8);
    } else {
        assert(0xC0 | ((v >> 6) & 0x1F) as u8 >= 0x80) by (bit_vector);
        assert(0xE0 | ((v >> 12) & 0x0F) as u8 >= 0x80) by (bit_vector);
        assert(0xF0 | ((v >> 18) & 0x7) as u8 >= 0x80) by (bit_vector);
        assert(0x80 | (v & 0x3F) as u8 >= 0x80) by (bit_vector);
        assert(0x80 | ((v >> 6) & 0x3F) as u8 >= 0x80) by (bit_vector);
        assert(0x80 | ((v >> 12) & 0x3F) as u8 >= 0x80) by (bit_vector);
    }
}

/// The bytes of a text hold an ASCII byte exactly if the text holds its character.
pub proof fn lemma_ascii_byte(text: Seq<char>, byte: u8)
    requires
        byte < 0x80,
    ensures
        encode_utf8(text).contains(byte) <==> text.contains(byte as char),
    decreases text.len(),
{
    if text.len() > 0 {
        let c = byte as char;
        let rest = text.drop_first();
        let first = encode_scalar(text[0] as u32);
        let others = encode_utf8(rest);
        lemma_scalar_ascii(text[0], byte);
        lemma_ascii_byte(rest, byte);
        assert(encode_utf8(text) == first + others);
        if first.contains(byte) {
            let i = choose|i: int| 0 <= i < first.len() && first[i] == byte;
            assert((first + others)[i] == byte);
        }
        if others.contains(byte) {
            let i = choose|i: int| 0 <= i < others.len() && others[i] == byte;
            assert((first + others)[first.len() + i] == byte);
        }
        if (first + others).contains(byte) {
            let i = choose|i: int| 0 <= i < (first + others).len() && (first + others)[i] == byte;
            if i < first.len() {
                assert(first[i] == byte);
            } else {
                assert(others[i - first.len()] == byte);
            }
        }
        if text.contains(c) {
            let i = choose|i: int| 0 <= i < text.len() && text[i] == c;
            if i > 0 {
                assert(rest[i - 1] == c);
            }
        }
        if rest.contains(c) {
            let i = choose|i: int| 0 <= i < rest.len() && rest[i] == c;
            assert(text[i + 1] == c);
        }
    }
}

/// Whether a text can be handed to the system, and if not, where its first NUL byte stands.
pub fn check_nul(text: &str) -> (res: Result<(), NulError>)
    ensures
        res is Ok <==> !has_nul(text@),
        res matches Err(e) ==> e.is_about(text@),
{
    let bytes = text.as_bytes();
    proof {
        lemma_ascii_byte(text@, 0);
    }
    let mut i: usize = 0;
    while i < bytes.len()
        invariant
            i <= bytes.len(),
            bytes@ == encode_utf8(text@),
            bytes@.contains(0u8) <==> has_nul(text@),
            forall|j: int| 0 <= j < i ==> bytes@[j] != 0,
        decreases bytes.len() - i,
    {
        if bytes[i] == 0 {
            assert(bytes@[i as int] == 0u8);
            return Err(NulError { position: i, bytes: slice_to_vec(bytes) });
        }
        i += 1;
    }
    Ok(())
}

/// The place of the first text that the system cannot take, from a place on.
pub open spec fn nul_from(list: Seq<Seq<char>>, i: int) -> Option<int>
    decreases list.len() - i,
{
    if i < 0 || i >= list.len() {
        None
    } else if has_nul(list[i]) {
        Some(i)
    } else {
        nul_from(list, i + 1)
    }
}

/// The place of the first text that the system cannot take.
pub open spec fn first_nul(list: Seq<Seq<char>>) -> Option<int> {
    nul_from(list, 0)
}

/// Whether the system can take all the texts, and if not, what is wrong with the first that it
/// cannot take.
pub fn check_all(list: &[String]) -> (res: Result<(), NulError>)
    ensures
        match first_nul(texts(list@)) {
            Some(i) => res matches Err(e) && e.is_about(texts(list@)[i]),
            None => res is Ok,
        },
{
    let mut i: usize = 0;
    while i < list.len()
        invariant
            i <= list@.len(),
            first_nul(texts(list@)) == nul_from(texts(list@), i as int),
        decreases list@.len() - i,
    {
        match check_nul(list[i].as_str()) {
            Err(e) => {
                return Err(e);
            },
            Ok(()) => {},
        }
        i += 1;
    }
    Ok(())
}

// ---------------------------------------------------------------------------
// Numbers
// ---------------------------------------------------------------------------

/// The character of a digit.
pub open spec fn digit(n: int) -> char {
    (48 + n) as char
}

/// A number in decimal, without leading zeros.
pub open spec fn decimal(n: int) -> Seq<char>
    decreases n,
    when n >= 0
{
    if n < 10 {
        seq![digit(n)]
    } else {
        decimal(n / 10).push(digit(n % 10))
    }
}

/// Writes a number in decimal at the end of a text.
fn push_decimal(text: &mut String, n: u64)
    ensures
        final(text)@ == old(text)@ + decimal(n as int),
    decreases n,
{
    let last: u8 = (n % 10) as u8;
    if n >= 10 {
        push_decimal(text, n / 10);
    }
    text.push((48u8 + last) as char);
    assert(text@ =~= old(text)@ + decimal(n as int));
}

/// An integer in decimal, with a minus sign where it is negative.
pub open spec fn integer(n: int) -> Seq<char> {
    if n < 0 {
        seq!['-'] + decimal(-n)
    } else {
        decimal(n)
    }
}

/// The text of an integer.
pub fn integer_text(n: i32) -> (text: String)
    ensures
        text@ == integer(n as int),
{
    let mut text = String::new();
    if n < 0 {
        text.push('-');
        push_decimal(&mut text, (-(n as i64)) as u64);
    } else {
        push_decimal(&mut text, n as u64);
    }
    assert(text@ =~= integer(n as int));
    text
}

// ---------------------------------------------------------------------------
// What holds of every text
// ---------------------------------------------------------------------------

/// A list of strings has as many texts as strings, each that of the string at its place.
pub proof fn law_texts_are_those_of_the_strings(list: Seq<String>, slices: Seq<&str>, i: int)
    ensures
        texts(list).len() == list.len(),
        0 <= i < list.len() ==> texts(list)[i] == list[i]@,
        str_texts(slices).len() == slices.len(),
        0 <= i < slices.len() ==> str_texts(slices)[i] == slices[i]@,
{
}

/// To join two lists at once is to join each, with the separator between the two. What is joined
/// alone is left as it is, and nothing joined is nothing.
pub proof fn law_separator_stands_between(
    first: Seq<Seq<char>>,
    second: Seq<Seq<char>>,
    part: Seq<char>,
    sep: char,
)
    requires
        first.len() > 0,
        second.len() > 0,
    ensures
        joined(first + second, sep) == joined(first, sep) + seq![sep] + joined(second, sep),
        joined(seq![part], sep) == part,
        joined(Seq::<Seq<char>>::empty(), sep).len() == 0,
    decreases second.len(),
{
    let all = first + second;
    assert(all.last() == second.last());
    assert(all.drop_last() =~= first + second.drop_last());
    if second.len() == 1 {
        assert(all.drop_last() =~= first);
        assert(joined(all, sep) =~= joined(first, sep) + seq![sep] + second[0]);
    } else {
        law_separator_stands_between(first, second.drop_last(), part, sep);
        assert(joined(all, sep) =~= joined(first, sep) + seq![sep] + joined(second, sep));
    }
}

/// No piece of a text holds the separator, and the pieces make up the text. No other list does.
pub proof fn law_pieces_are_what_the_separator_parts(
    text: Seq<char>,
    sep: char,
    other: Seq<Seq<char>>,
)
    ensures
        pieces(text, sep).len() > 0,
        forall|i: int, j: int|
            0 <= i < pieces(text, sep).len() && 0 <= j < pieces(text, sep)[i].len() ==> (
            #[trigger] pieces(text, sep)[i][j]) != sep,
        joined(pieces(text, sep), sep) == text,
        other.len() > 0 && joined(other, sep) == text && (forall|i: int, j: int|
            0 <= i < other.len() && 0 <= j < other[i].len() ==> (#[trigger] other[i][j]) != sep)
            ==> other == pieces(text, sep),
{
    lemma_pieces_nonempty(text, sep);
    lemma_pieces_free(text, sep);
    law_joining_pieces_restores_text(text, sep);
    if other.len() > 0 && joined(other, sep) == text && (forall|i: int, j: int|
        0 <= i < other.len() && 0 <= j < other[i].len() ==> (#[trigger] other[i][j]) != sep) {
        assert forall|i: int| 0 <= i < other.len() implies !(#[trigger] other[i]).contains(sep) by {
            if other[i].contains(sep) {
                let j = choose|j: int| 0 <= j < other[i].len() && other[i][j] == sep;
                assert(other[i][j] != sep);
            }
        }
        law_pieces_of_joined_restore_list(other, sep);
    }
}

proof fn lemma_pieces_free(text: Seq<char>, sep: char)
    ensures
        forall|i: int, j: int|
            0 <= i < pieces(text, sep).len() && 0 <= j < pieces(text, sep)[i].len() ==> (
            #[trigger] pieces(text, sep)[i][j]) != sep,
    decreases text.len(),
{
    if text.len() > 0 {
        let before = pieces(text.drop_last(), sep);
        let all = pieces(text, sep);
        lemma_pieces_nonempty(text.drop_last(), sep);
        lemma_pieces_free(text.drop_last(), sep);
        assert forall|i: int, j: int| 0 <= i < all.len() && 0 <= j < all[i].len() implies (
        #[trigger] all[i][j]) != sep by {
            if i < before.len() - 1 {
                assert(all[i] == before[i]);
                assert(before[i][j] != sep);
            } else if text.last() == sep {
                if i == before.len() - 1 {
                    assert(all[i] == before[i]);
                    assert(before[i][j] != sep);
                }
            } else {
                assert(all[i] == before[i].push(text.last()));
                if j < before[i].len() {
                    assert(before[i][j] != sep);
                }
            }
        }
    }
}

/// The system cannot take a text exactly if a NUL character stands somewhere in it, and then its
/// bytes hold a zero.
pub proof fn law_nul_is_found_anywhere(text: Seq<char>)
    ensures
        has_nul(text) <==> exists|i: int| 0 <= i < text.len() && #[trigger] text[i] == '\0',
        has_nul(text) <==> exists|i: int|
            0 <= i < encode_utf8(text).len() && #[trigger] encode_utf8(text)[i] == 0u8,
{
    lemma_ascii_byte(text, 0);
}

/// An error about a text carries the bytes of that text, and the place of the first zero in them.
pub proof fn law_nul_error_tells_the_first_place(e: NulError, text: Seq<char>)
    requires
        e.is_about(text),
    ensures
        e.bytes@ == encode_utf8(text),
        e.position < e.bytes@.len(),
        e.bytes@[e.position as int] == 0,
        forall|i: int| 0 <= i < e.position ==> #[trigger] e.bytes@[i] != 0,
        text.contains('\0'),
{
    lemma_ascii_byte(text, 0);
    assert(e.bytes@.contains(0u8));
}

proof fn lemma_nul_from(list: Seq<Seq<char>>, from: int)
    requires
        0 <= from,
    ensures
        match nul_from(list, from) {
            Some(i) => {
                &&& from <= i < list.len()
                &&& list[i].contains('\0')
                &&& forall|j: int| from <= j < i ==> !(#[trigger] list[j]).contains('\0')
            },
            None => forall|j: int|
                from <= j < list.len() ==> !(#[trigger] list[j]).contains('\0'),
        },
    decreases list.len() - from,
{
    if from < list.len() && !has_nul(list[from]) {
        lemma_nul_from(list, from + 1);
    }
}

/// Of a list, the first text that holds a NUL character is found, and none exactly if none does.
pub proof fn law_first_nul_is_the_first(list: Seq<Seq<char>>)
    ensures
        match first_nul(list) {
            Some(i) => {
                &&& 0 <= i < list.len()
                &&& list[i].contains('\0')
                &&& forall|j: int| 0 <= j < i ==> !(#[trigger] list[j]).contains('\0')
            },
            None => forall|j: int| 0 <= j < list.len() ==> !(#[trigger] list[j]).contains('\0'),
        },
{
    lemma_nul_from(list, 0);
}

/// The number that digits stand for.
pub open spec fn value(digits: Seq<char>) -> int
    decreases digits.len(),
{
    if digits.len() == 0 {
        0
    } else {
        10 * value(digits.drop_last()) + (digits.last() as int - '0' as int)
    }
}

/// The decimal text of a number is made of digits, stands for the number, and begins with a zero
/// only where the number is zero.
pub proof fn law_decimal_stands_for_the_number(n: int)
    requires
        n >= 0,
    ensures
        value(decimal(n)) == n,
        decimal(n).len() > 0,
        forall|i: int| 0 <= i < decimal(n).len() ==> '0' <= #[trigger] decimal(n)[i] <= '9',
        decimal(n)[0] == '0' ==> n == 0 && decimal(n).len() == 1,
    decreases n,
{
    let text = decimal(n);
    if n < 10 {
        assert(text.drop_last() =~= Seq::empty());
        assert(value(text.drop_last()) == 0);
    } else {
        law_decimal_stands_for_the_number(n / 10);
        assert(text.drop_last() =~= decimal(n / 10));
        assert(text.last() == digit(n % 10));
    }
}

/// The text of an integer is the decimal text of its amount, with a minus sign before it exactly
/// where it is negative.
pub proof fn law_integer_has_its_sign(n: int)
    ensures
        n < 0 ==> integer(n)[0] == '-' && value(integer(n).skip(1)) == -n && integer(n).skip(1)
            == decimal(-n),
        n >= 0 ==> integer(n) == decimal(n) && value(integer(n)) == n && integer(n)[0] != '-',
{
    if n < 0 {
        law_decimal_stands_for_the_number(-n);
        assert(integer(n).skip(1) =~= decimal(-n));
    } else {
        law_decimal_stands_for_the_number(n);
        assert('0' <= decimal(n)[0]);
    }
}

/// The bytes of a text are read as that text, and bytes that are those of no text as none.
pub proof fn law_text_survives_its_bytes(text: Seq<char>, bytes: Seq<u8>)
    ensures
        utf8_text(encode_utf8(text)) == Some(text),
        utf8_text(bytes) matches Some(t) ==> encode_utf8(t) == bytes,
        utf8_text(bytes) is None ==> forall|t: Seq<char>| #[trigger] encode_utf8(t) != bytes,
{
    encode_utf8_valid_utf8(text);
    encode_utf8_decode_utf8(text);
    if valid_utf8(bytes) {
        decode_utf8_encode_utf8(bytes);
    } else {
        assert forall|t: Seq<char>| #[trigger] encode_utf8(t) != bytes by {
            encode_utf8_valid_utf8(t);
        }
    }
}

} // verus!
