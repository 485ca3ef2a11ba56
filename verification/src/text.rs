//! Texts as Rust holds them, in UTF-8, and as they are read, character
//! by character: the lines of a text, a text without the white space at
//! its ends, and one text found inside another. The work is done on the
//! bytes; what is promised is said of the characters.

use vstd::prelude::*;
use vstd::utf8::decode_utf8;
use vstd::utf8::decode_utf8_split;
use vstd::utf8::encode_utf8;
use vstd::utf8::encode_utf8_decode_utf8;
use vstd::utf8::encode_utf8_first_scalar;
use vstd::utf8::encode_utf8_valid_utf8;
use vstd::utf8::is_char_boundary;
use vstd::utf8::is_char_boundary_iff_not_is_continuation_byte;
use vstd::utf8::is_continuation_byte;
use vstd::utf8::length_of_first_scalar;
use vstd::utf8::pop_first_scalar;

verus! {

/// The position of the first `wanted` in `s`, or the length of `s` if it
/// holds none.
pub open spec fn first_index<T>(s: Seq<T>, wanted: T) -> int
    decreases s.len(),
{
    if s.len() == 0 || s[0] == wanted {
        0
    } else {
        1 + first_index(s.drop_first(), wanted)
    }
}

/// [`first_index`] lies within the sequence or at its end, nothing
/// before it is the wanted element, and what stands at it is.
pub proof fn lemma_first_index<T>(s: Seq<T>, wanted: T)
    ensures
        0 <= first_index(s, wanted) <= s.len(),
        forall|i: int| 0 <= i < first_index(s, wanted) ==> s[i] != wanted,
        first_index(s, wanted) < s.len() ==> s[first_index(s, wanted)] == wanted,
    decreases s.len(),
{
    if !(s.len() == 0 || s[0] == wanted) {
        let rest = s.drop_first();
        lemma_first_index(rest, wanted);
        assert forall|i: int| 0 <= i < first_index(s, wanted) implies s[i] != wanted by {
            if i > 0 {
                assert(s[i] == rest[i - 1]);
            }
        }
        if first_index(s, wanted) < s.len() {
            assert(s[first_index(s, wanted)] == rest[first_index(rest, wanted)]);
        }
    }
}

/// A place before which the wanted element does not stand, and which
/// holds it or is the end, is the [`first_index`].
pub proof fn lemma_first_index_is<T>(s: Seq<T>, wanted: T, at: int)
    requires
        0 <= at <= s.len(),
        forall|i: int| 0 <= i < at ==> s[i] != wanted,
        at < s.len() ==> s[at] == wanted,
    ensures
        first_index(s, wanted) == at,
{
    lemma_first_index(s, wanted);
    let first = first_index(s, wanted);
    if first < at {
        assert(s[first] == wanted);
    } else if at < first {
        assert(s[at] != wanted);
    }
}

/// The position of the first line feed in `text`, or the length of
/// `text` if it holds none.
pub open spec fn line_end(text: Seq<char>) -> int {
    first_index(text, '\n')
}

/// `line` without one carriage return at its end, if it has one there.
pub open spec fn without_cr(line: Seq<char>) -> Seq<char> {
    if line.len() > 0 && line.last() == '\r' {
        line.drop_last()
    } else {
        line
    }
}

/// The lines of `text`. A line ends at a line feed, or at a carriage
/// return followed at once by a line feed; neither is part of the line.
/// The last line need not be ended: what follows the last line feed is a
/// line of its own, taken as it stands, unless it is empty.
pub open spec fn lines_of(text: Seq<char>) -> Seq<Seq<char>>
    decreases text.len(),
{
    let end = line_end(text);
    if text.len() == 0 {
        Seq::empty()
    } else if 0 <= end < text.len() {
        seq![without_cr(text.take(end))] + lines_of(text.skip(end + 1))
    } else {
        seq![text]
    }
}

/// `query` stands in `line` from position `at` on, element for element.
pub open spec fn occurs_at<T>(query: Seq<T>, line: Seq<T>, at: int) -> bool {
    &&& 0 <= at
    &&& at + query.len() <= line.len()
    &&& line.subrange(at, at + query.len()) == query
}

/// `query` stands somewhere in `line`, as a run of consecutive elements.
pub open spec fn occurs_in<T>(query: Seq<T>, line: Seq<T>) -> bool {
    exists|at: int| occurs_at(query, line, at)
}

/// What each of `lines` holds.
pub open spec fn texts(lines: Seq<&str>) -> Seq<Seq<char>> {
    lines.map_values(|line: &str| line@)
}

/// `b` encodes a character by itself: it is below 128.
pub open spec fn is_ascii_byte(b: u8) -> bool {
    b < 128
}

/// A character is a number from 0 to 0x10ffff.
pub(crate) proof fn lemma_char_range(c: char)
    ensures
        0 <= c as int <= 0x10ffff,
        c as u32 == c as int,
{
}

/// The encoding of a text in two parts is the encoding of the first part
/// followed by that of the second.
pub(crate) proof fn lemma_encode_concat(a: Seq<char>, b: Seq<char>)
    ensures
        encode_utf8(a + b) == encode_utf8(a) + encode_utf8(b),
    decreases a.len(),
{
    if a.len() == 0 {
        assert(a + b =~= b);
        assert(encode_utf8(a) + encode_utf8(b) =~= encode_utf8(b));
    } else {
        lemma_encode_concat(a.drop_first(), b);
        assert((a + b).drop_first() =~= a.drop_first() + b);
        assert((a + b)[0] == a[0]);
        assert(encode_utf8(a + b) =~= encode_utf8(a) + encode_utf8(b));
    }
}

/// Only the empty text has an empty encoding.
pub(crate) proof fn lemma_encode_empty(text: Seq<char>)
    ensures
        encode_utf8(text).len() == 0 <==> text.len() == 0,
{
    if text.len() > 0 {
        encode_utf8_first_scalar(text);
    }
}

/// A character below 128 is encoded by the one byte of the same value.
pub(crate) proof fn lemma_encode_ascii(c: char)
    requires
        (c as u32) < 128,
    ensures
        encode_utf8(seq![c]) == seq![c as u8],
{
    let text = seq![c];
    vstd::utf8::is_ascii_chars_encode_utf8(text);
    assert(encode_utf8(text) =~= seq![c as u8]);
}

/// Where the encoding of a text begins with a byte below 128, the text
/// begins with the character of that value, and that byte is all of the
/// character's encoding.
pub(crate) proof fn lemma_first_ascii(text: Seq<char>)
    requires
        encode_utf8(text).len() > 0,
        is_ascii_byte(encode_utf8(text)[0]),
    ensures
        text.len() > 0,
        text[0] as u32 == encode_utf8(text)[0],
        encode_utf8(text.drop_first()) == encode_utf8(text).drop_first(),
        length_of_first_scalar(encode_utf8(text)) == 1,
{
    lemma_encode_empty(text);
    encode_utf8_first_scalar(text);
    lemma_char_range(text[0]);
    let b = encode_utf8(text)[0];
    assert((b & 0x7f) as u32 == b as u32) by (bit_vector)
        requires
            b < 128,
    ;
    assert(encode_utf8(text.drop_first()) =~= encode_utf8(text).drop_first());
}

/// A byte below 128 that occurs nowhere in the encoding of a text is the
/// value of none of its characters.
pub(crate) proof fn lemma_ascii_absent(text: Seq<char>, b: u8)
    requires
        is_ascii_byte(b),
        forall|i: int| 0 <= i < encode_utf8(text).len() ==> encode_utf8(text)[i] != b,
    ensures
        forall|k: int| 0 <= k < text.len() ==> text[k] as u32 != b,
    decreases text.len(),
{
    if text.len() > 0 {
        let rest = text.drop_first();
        let head = vstd::utf8::encode_scalar(text[0] as u32);
        encode_utf8_first_scalar(text);
        assert(encode_utf8(text) =~= head + encode_utf8(rest));
        assert forall|i: int| 0 <= i < encode_utf8(rest).len() implies encode_utf8(rest)[i]
            != b by {
            assert(encode_utf8(text)[head.len() + i] == encode_utf8(rest)[i]);
        }
        lemma_ascii_absent(rest, b);
        if text[0] as u32 == b {
            lemma_encode_ascii(text[0]);
            lemma_encode_concat(seq![text[0]], rest);
            assert(seq![text[0]] + rest =~= text);
            lemma_char_range(text[0]);
            assert(encode_utf8(seq![text[0]])[0] == b);
            assert(encode_utf8(text)[0] == b);
        }
        assert forall|k: int| 0 <= k < text.len() implies text[k] as u32 != b by {
            if k > 0 {
                assert(text[k] == rest[k - 1]);
            }
        }
    }
}

/// Splits `text` in two before the byte at `mid`, which must not fall
/// inside the encoding of a character.
pub(crate) fn split<'a>(text: &'a str, mid: usize) -> (parts: (&'a str, &'a str))
    requires
        is_char_boundary(encode_utf8(text@), mid as int),
    ensures
        text@ == parts.0@ + parts.1@,
        encode_utf8(parts.0@) == encode_utf8(text@).subrange(0, mid as int),
        encode_utf8(parts.1@) == encode_utf8(text@).subrange(
            mid as int,
            encode_utf8(text@).len() as int,
        ),
{
    let parts = text.split_at(mid);
    proof {
        let bytes = encode_utf8(text@);
        encode_utf8_valid_utf8(text@);
        decode_utf8_split(bytes, mid as int);
        encode_utf8_decode_utf8(text@);
        encode_utf8_decode_utf8(parts.0@);
        encode_utf8_decode_utf8(parts.1@);
        assert(decode_utf8(bytes) == text@);
        assert(decode_utf8(bytes.subrange(0, mid as int)) == parts.0@);
        assert(decode_utf8(bytes.subrange(mid as int, bytes.len() as int)) == parts.1@);
    }
    parts
}

/// The position of the first `wanted` among `bytes`, or their number
/// where there is none.
pub fn find_byte(bytes: &[u8], wanted: u8) -> (at: usize)
    ensures
        at == first_index(bytes@, wanted),
{
    let mut at: usize = 0;
    while at < bytes.len()
        invariant
            at <= bytes@.len(),
            forall|i: int| 0 <= i < at ==> bytes@[i] != wanted,
        decreases bytes@.len() - at,
    {
        if bytes[at] == wanted {
            proof {
                lemma_first_index_is(bytes@, wanted, at as int);
            }
            return at;
        }
        at += 1;
    }
    proof {
        lemma_first_index_is(bytes@, wanted, at as int);
    }
    at
}

/// Cuts `text` at the byte at `at`, which must be below 128 and so stand
/// for a character of its own: what stands before that character, and
/// what stands after it.
pub(crate) fn cut<'a>(text: &'a str, at: usize) -> (parts: (&'a str, &'a str))
    requires
        at < encode_utf8(text@).len(),
        is_ascii_byte(encode_utf8(text@)[at as int]),
    ensures
        text@ == parts.0@.push(encode_utf8(text@)[at as int] as char) + parts.1@,
        encode_utf8(parts.0@) == encode_utf8(text@).subrange(0, at as int),
        encode_utf8(parts.1@) == encode_utf8(text@).subrange(
            at + 1,
            encode_utf8(text@).len() as int,
        ),
{
    let ghost bytes = encode_utf8(text@);
    proof {
        encode_utf8_valid_utf8(text@);
        is_char_boundary_iff_not_is_continuation_byte(bytes, at as int);
    }
    let (before, tail) = split(text, at);
    let ghost tail_bytes = encode_utf8(tail@);
    proof {
        encode_utf8_valid_utf8(tail@);
        assert(tail_bytes[0] == bytes[at as int]);
        lemma_first_ascii(tail@);
        assert(is_char_boundary(pop_first_scalar(tail_bytes), 0));
        assert(is_char_boundary(tail_bytes, 1)) by {
            reveal_with_fuel(is_char_boundary, 2);
        }
    }
    let (_, after) = split(tail, 1);
    proof {
        assert(encode_utf8(after@) =~= encode_utf8(tail@.drop_first()));
        encode_utf8_decode_utf8(after@);
        encode_utf8_decode_utf8(tail@.drop_first());
        assert(after@ == tail@.drop_first());
        lemma_char_range(tail@[0]);
        assert(tail@[0] == bytes[at as int] as char);
        assert(tail@ =~= seq![tail@[0]] + after@);
        assert(text@ =~= before@.push(bytes[at as int] as char) + after@);
        assert(encode_utf8(after@) =~= bytes.subrange(at + 1, bytes.len() as int));
    }
    (before, after)
}

/// The byte that encodes a line feed.
pub const LINE_FEED: u8 = 10;

/// The byte that encodes a carriage return.
pub const CARRIAGE_RETURN: u8 = 13;

/// `line` without the carriage return at its end, if it has one there.
pub fn strip_carriage_return<'a>(line: &'a str) -> (stripped: &'a str)
    ensures
        stripped@ == without_cr(line@),
{
    let bytes = line.as_bytes();
    let len = bytes.len();
    if len > 0 && bytes[len - 1] == CARRIAGE_RETURN {
        let (body, after) = cut(line, len - 1);
        proof {
            lemma_encode_empty(after@);
            assert(line@ =~= body@.push('\r'));
            assert(line@.drop_last() =~= body@);
        }
        body
    } else {
        proof {
            if line@.len() > 0 && line@.last() == '\r' {
                let front = line@.drop_last();
                assert(line@ =~= front + seq!['\r']);
                lemma_encode_concat(front, seq!['\r']);
                lemma_encode_ascii('\r');
                assert(encode_utf8(line@).last() == CARRIAGE_RETURN);
            }
        }
        line
    }
}

/// The lines of `contents`, each a part of it.
pub fn lines<'a>(contents: &'a str) -> (all: Vec<&'a str>)
    ensures
        texts(all@) == lines_of(contents@),
{
    let mut all: Vec<&'a str> = Vec::new();
    let mut rest = contents;
    assert(texts(all@) + lines_of(rest@) =~= lines_of(contents@));
    while !rest.is_empty()
        invariant
            lines_of(contents@) == texts(all@) + lines_of(rest@),
        decreases rest@.len(),
    {
        let bytes = rest.as_bytes();
        let end = find_byte(bytes, LINE_FEED);
        let ghost before = all@;
        proof {
            lemma_first_index(bytes@, LINE_FEED);
        }
        if end < bytes.len() {
            let (line, after) = cut(rest, end);
            let stripped = strip_carriage_return(line);
            proof {
                lemma_ascii_absent(line@, LINE_FEED);
                assert(rest@ =~= line@.push('\n') + after@);
                assert forall|k: int| 0 <= k < line@.len() implies rest@[k] != '\n' by {
                    assert(rest@[k] == line@[k]);
                    assert(line@[k] as u32 != LINE_FEED);
                }
                assert(rest@[line@.len() as int] == '\n');
                lemma_first_index_is(rest@, '\n', line@.len() as int);
                assert(rest@.take(line@.len() as int) =~= line@);
                assert(rest@.skip(line@.len() as int + 1) =~= after@);
                assert(lines_of(rest@) == seq![without_cr(line@)] + lines_of(after@));
            }
            all.push(stripped);
            proof {
                assert(texts(all@) =~= texts(before).push(stripped@));
                assert(texts(all@) + lines_of(after@) =~= texts(before) + lines_of(rest@));
            }
            rest = after;
        } else {
            proof {
                lemma_ascii_absent(rest@, LINE_FEED);
                assert forall|k: int| 0 <= k < rest@.len() implies rest@[k] != '\n' by {
                    assert(rest@[k] as u32 != LINE_FEED);
                }
                lemma_first_index_is(rest@, '\n', rest@.len() as int);
                assert(lines_of(rest@) == seq![rest@]);
            }
            all.push(rest);
            proof {
                assert(texts(all@) =~= texts(before).push(rest@));
                assert(texts(all@) =~= texts(before) + lines_of(rest@));
            }
            return all;
        }
    }
    proof {
        assert(lines_of(rest@) =~= Seq::<Seq<char>>::empty());
        assert(texts(all@) + lines_of(rest@) =~= texts(all@));
    }
    all
}

/// `c` is white space, as Unicode defines it.
pub uninterp spec fn whitespace(c: char) -> bool;

/// Tests with `char::is_whitespace` of the standard library, which says
/// whether a character has the Unicode property `White_Space`. The answer
/// depends on the character alone, and is known here only by its name,
/// [`whitespace`]. Nothing is proved of this function; it is taken on
/// trust.
#[verifier::external_body]
fn is_whitespace(c: char) -> (space: bool)
    ensures
        space == whitespace(c),
{
    c.is_whitespace()
}

/// How many characters of white space `text` begins with.
pub open spec fn leading_space(text: Seq<char>) -> int
    decreases text.len(),
{
    if text.len() > 0 && whitespace(text[0]) {
        1 + leading_space(text.drop_first())
    } else {
        0
    }
}

/// How many characters of white space `text` ends with.
pub open spec fn trailing_space(text: Seq<char>) -> int
    decreases text.len(),
{
    if text.len() > 0 && whitespace(text.last()) {
        1 + trailing_space(text.drop_last())
    } else {
        0
    }
}

/// `text` without the white space at its two ends.
pub open spec fn trimmed(text: Seq<char>) -> Seq<char> {
    if leading_space(text) >= text.len() {
        Seq::empty()
    } else {
        text.subrange(leading_space(text), text.len() - trailing_space(text))
    }
}

/// A place before which all is white space, and which is not white space
/// itself or is the end, is where the leading white space ends.
proof fn lemma_leading_space_is(text: Seq<char>, at: int)
    requires
        0 <= at <= text.len(),
        forall|k: int| 0 <= k < at ==> whitespace(text[k]),
        at < text.len() ==> !whitespace(text[at]),
    ensures
        leading_space(text) == at,
    decreases text.len(),
{
    if at > 0 {
        let rest = text.drop_first();
        assert forall|k: int| 0 <= k < at - 1 implies whitespace(rest[k]) by {
            assert(rest[k] == text[k + 1]);
        }
        assert(whitespace(text[0]));
        lemma_leading_space_is(rest, at - 1);
    }
}

/// A place from which on all is white space, and before which stands
/// what is not white space or nothing at all, is where the trailing
/// white space begins.
proof fn lemma_trailing_space_is(text: Seq<char>, at: int)
    requires
        0 <= at <= text.len(),
        forall|k: int| at <= k < text.len() ==> whitespace(text[k]),
        at > 0 ==> !whitespace(text[at - 1]),
    ensures
        trailing_space(text) == text.len() - at,
    decreases text.len(),
{
    if at < text.len() {
        let front = text.drop_last();
        assert forall|k: int| at <= k < front.len() implies whitespace(front[k]) by {
            assert(front[k] == text[k]);
        }
        assert(whitespace(text.last()));
        if at > 0 {
            assert(front[at - 1] == text[at - 1]);
        }
        lemma_trailing_space_is(front, at);
    }
}

/// The encoding of the beginning of a text ends where a character of the
/// text ends.
proof fn lemma_prefix_boundary(a: Seq<char>, b: Seq<char>)
    ensures
        is_char_boundary(encode_utf8(a + b), encode_utf8(a).len() as int),
    decreases a.len(),
{
    let bytes = encode_utf8(a + b);
    encode_utf8_valid_utf8(a + b);
    if a.len() > 0 {
        let rest = a.drop_first();
        assert((a + b).drop_first() =~= rest + b);
        assert((a + b)[0] == a[0]);
        encode_utf8_first_scalar(a + b);
        lemma_prefix_boundary(rest, b);
        assert(pop_first_scalar(bytes) =~= encode_utf8(rest + b));
        assert(encode_utf8(a).len() == length_of_first_scalar(bytes) + encode_utf8(rest).len());
        assert(encode_utf8(a).len() <= bytes.len()) by {
            lemma_encode_concat(a, b);
        }
        assert(is_char_boundary(bytes, encode_utf8(a).len() as int)) by {
            reveal_with_fuel(is_char_boundary, 2);
        }
    }
}

/// Texts with the same encoding are the same text.
proof fn lemma_encode_injective(a: Seq<char>, b: Seq<char>)
    requires
        encode_utf8(a) == encode_utf8(b),
    ensures
        a == b,
{
    encode_utf8_decode_utf8(a);
    encode_utf8_decode_utf8(b);
}

/// The number of bytes that encode `c`.
fn utf8_width(c: char) -> (width: usize)
    ensures
        width == vstd::utf8::encode_scalar(c as u32).len(),
        1 <= width <= 4,
{
    let value = c as u32;
    if value < 0x80 {
        1
    } else if value < 0x800 {
        2
    } else if value < 0x10000 {
        3
    } else {
        4
    }
}

/// The part of `text` from byte `start` up to byte `end`, where both are
/// places at which beginnings of `text` end.
fn between<'a>(text: &'a str, start: usize, end: usize, Ghost(a): Ghost<int>, Ghost(b): Ghost<int>) -> (part:
    &'a str)
    requires
        0 <= a <= b <= text@.len(),
        start == encode_utf8(text@.take(a)).len(),
        end == encode_utf8(text@.take(b)).len(),
    ensures
        part@ == text@.subrange(a, b),
{
    proof {
        assert(text@ =~= text@.take(b) + text@.skip(b));
        lemma_prefix_boundary(text@.take(b), text@.skip(b));
    }
    let (head, _) = split(text, end);
    proof {
        lemma_encode_concat(text@.take(b), text@.skip(b));
        assert(encode_utf8(head@) =~= encode_utf8(text@.take(b)));
        lemma_encode_injective(head@, text@.take(b));
        assert(head@ =~= text@.take(a) + text@.subrange(a, b));
        lemma_prefix_boundary(text@.take(a), text@.subrange(a, b));
    }
    let (_, part) = split(head, start);
    proof {
        lemma_encode_concat(text@.take(a), text@.subrange(a, b));
        assert(encode_utf8(part@) =~= encode_utf8(text@.subrange(a, b)));
        lemma_encode_injective(part@, text@.subrange(a, b));
    }
    part
}

/// `text` without the white space at its two ends.
pub fn trim<'a>(text: &'a str) -> (inner: &'a str)
    ensures
        inner@ == trimmed(text@),
{
    let len = text.as_bytes().len();
    let mut pos: usize = 0;
    let mut start: usize = 0;
    let mut end: usize = 0;
    let mut seen = false;
    let ghost mut read: int = 0;
    let ghost mut a: int = 0;
    let ghost mut b: int = 0;
    proof {
        assert(text@.take(0) =~= Seq::<char>::empty());
    }
    for c in iter: text.chars()
        invariant
            iter.seq() == text@,
            read == iter.index(),
            len == encode_utf8(text@).len(),
            pos == encode_utf8(text@.take(read)).len(),
            !seen ==> forall|k: int| 0 <= k < read ==> whitespace(text@[k]),
            seen ==> {
                &&& 0 <= a < b <= read
                &&& forall|k: int| 0 <= k < a ==> whitespace(text@[k])
                &&& !whitespace(text@[a])
                &&& !whitespace(text@[b - 1])
                &&& forall|k: int| b <= k < read ==> whitespace(text@[k])
                &&& start == encode_utf8(text@.take(a)).len()
                &&& end == encode_utf8(text@.take(b)).len()
            },
    {
        let width = utf8_width(c);
        proof {
            let before = text@.take(read);
            assert(text@.take(read + 1) =~= before + seq![c]);
            lemma_encode_concat(before, seq![c]);
            assert(encode_utf8(seq![c]) =~= vstd::utf8::encode_scalar(c as u32)) by {
                reveal_with_fuel(encode_utf8, 2);
                assert(seq![c].drop_first() =~= Seq::<char>::empty());
            }
            assert(text@ =~= text@.take(read + 1) + text@.skip(read + 1));
            lemma_encode_concat(text@.take(read + 1), text@.skip(read + 1));
        }
        if !is_whitespace(c) {
            if !seen {
                start = pos;
                seen = true;
                proof {
                    a = read;
                }
            }
            end = pos + width;
            proof {
                b = read + 1;
            }
        }
        pos = pos + width;
        proof {
            read = read + 1;
        }
    }
    if seen {
        proof {
            lemma_leading_space_is(text@, a);
            lemma_trailing_space_is(text@, b);
        }
        between(text, start, end, Ghost(a), Ghost(b))
    } else {
        proof {
            lemma_leading_space_is(text@, text@.len() as int);
            assert(text@.take(0) =~= Seq::<char>::empty());
            assert(text@.subrange(0, 0) =~= Seq::<char>::empty());
        }
        between(text, 0, 0, Ghost(0), Ghost(0))
    }
}

/// Whether `needle` stands in `hay` from position `at` on.
fn matches_at(hay: &[u8], needle: &[u8], at: usize) -> (same: bool)
    requires
        at + needle@.len() <= hay@.len(),
    ensures
        same == occurs_at(needle@, hay@, at as int),
{
    let len = hay.len();
    let mut i: usize = 0;
    while i < needle.len()
        invariant
            i <= needle@.len(),
            len == hay@.len(),
            at + needle@.len() <= hay@.len(),
            forall|j: int| 0 <= j < i ==> hay@[at + j] == needle@[j],
        decreases needle@.len() - i,
    {
        if hay[at + i] != needle[i] {
            assert(hay@.subrange(at as int, at + needle@.len())[i as int] != needle@[i as int]);
            return false;
        }
        i += 1;
    }
    assert(hay@.subrange(at as int, at + needle@.len()) =~= needle@);
    true
}

/// Whether `needle` stands somewhere in `hay`.
pub fn contains_bytes(hay: &[u8], needle: &[u8]) -> (found: bool)
    ensures
        found == occurs_in(needle@, hay@),
{
    if needle.len() > hay.len() {
        return false;
    }
    let last = hay.len() - needle.len();
    let mut at: usize = 0;
    loop
        invariant
            at <= last,
            last == hay@.len() - needle@.len(),
            forall|p: int| 0 <= p < at ==> !occurs_at(needle@, hay@, p),
        decreases last - at,
    {
        if matches_at(hay, needle, at) {
            return true;
        }
        if at == last {
            return false;
        }
        at += 1;
    }
}

/// Where the encoding of one text begins with the encoding of another,
/// the one text begins with the other.
pub(crate) proof fn lemma_encoded_prefix(short: Seq<char>, long: Seq<char>)
    requires
        encode_utf8(short).len() <= encode_utf8(long).len(),
        encode_utf8(long).subrange(0, encode_utf8(short).len() as int) == encode_utf8(short),
    ensures
        short.len() <= long.len(),
        long.take(short.len() as int) == short,
    decreases short.len(),
{
    let sb = encode_utf8(short);
    let lb = encode_utf8(long);
    if short.len() == 0 {
        assert(long.take(0) =~= short);
    } else {
        lemma_encode_empty(short);
        lemma_encode_empty(long);
        encode_utf8_first_scalar(short);
        encode_utf8_first_scalar(long);
        let width = length_of_first_scalar(sb);
        assert(width <= sb.len());
        assert forall|i: int| 0 <= i < sb.len() implies lb[i] == sb[i] by {
            assert(lb.subrange(0, sb.len() as int)[i] == sb[i]);
        }
        assert(lb[0] == sb[0]);
        assert(length_of_first_scalar(lb) == width);
        assert(vstd::utf8::decode_first_scalar(lb) == vstd::utf8::decode_first_scalar(sb));
        lemma_char_range(short[0]);
        lemma_char_range(long[0]);
        assert(long[0] == short[0]);
        let short_rest = short.drop_first();
        let long_rest = long.drop_first();
        assert(encode_utf8(short_rest) =~= sb.subrange(width, sb.len() as int));
        assert(encode_utf8(long_rest) =~= lb.subrange(width, lb.len() as int));
        assert(encode_utf8(long_rest).subrange(0, encode_utf8(short_rest).len() as int)
            =~= encode_utf8(short_rest));
        lemma_encoded_prefix(short_rest, long_rest);
        assert forall|i: int| 0 <= i < short.len() implies long.take(short.len() as int)[i]
            == short[i] by {
            if i > 0 {
                assert(long_rest.take(short_rest.len() as int)[i - 1] == short_rest[i - 1]);
            }
        }
        assert(long.take(short.len() as int) =~= short);
    }
}

/// One text stands in another exactly if its encoding stands in the
/// encoding of the other.
pub proof fn lemma_occurs_encoded(query: Seq<char>, line: Seq<char>)
    ensures
        occurs_in(encode_utf8(query), encode_utf8(line)) <==> occurs_in(query, line),
{
    let qb = encode_utf8(query);
    let lb = encode_utf8(line);
    if occurs_in(query, line) {
        let at = choose|at: int| occurs_at(query, line, at);
        let before = line.take(at);
        let after = line.skip(at + query.len());
        assert(line =~= before + query + after);
        lemma_encode_concat(before + query, after);
        lemma_encode_concat(before, query);
        let p = encode_utf8(before).len() as int;
        assert(lb.subrange(p, p + qb.len()) =~= qb);
        assert(occurs_at(qb, lb, p));
    }
    if occurs_in(qb, lb) {
        if query.len() == 0 {
            assert(line.subrange(0, 0) =~= query);
            assert(occurs_at(query, line, 0));
        } else {
            let p = choose|p: int| occurs_at(qb, lb, p);
            lemma_encode_empty(query);
            encode_utf8_first_scalar(query);
            encode_utf8_valid_utf8(line);
            assert(lb.subrange(p, p + qb.len())[0] == qb[0]);
            assert(!is_continuation_byte(lb[p]));
            is_char_boundary_iff_not_is_continuation_byte(lb, p);
            vstd::utf8::valid_utf8_split(lb, p);
            decode_utf8_split(lb, p);
            encode_utf8_decode_utf8(line);
            let before = decode_utf8(lb.subrange(0, p));
            let rest = decode_utf8(lb.subrange(p, lb.len() as int));
            vstd::utf8::decode_utf8_encode_utf8(lb.subrange(p, lb.len() as int));
            assert(line =~= before + rest);
            assert(encode_utf8(rest).subrange(0, qb.len() as int) =~= lb.subrange(
                p,
                p + qb.len(),
            ));
            lemma_encoded_prefix(query, rest);
            let at = before.len() as int;
            assert(line.subrange(at, at + query.len()) =~= rest.take(query.len() as int));
            assert(occurs_at(query, line, at));
        }
    }
}

/// Whether `pattern` stands somewhere in `text`, character for character.
pub fn contains(text: &str, pattern: &str) -> (found: bool)
    ensures
        found == occurs_in(pattern@, text@),
{
    proof {
        lemma_occurs_encoded(pattern@, text@);
    }
    contains_bytes(text.as_bytes(), pattern.as_bytes())
}

} // verus!
