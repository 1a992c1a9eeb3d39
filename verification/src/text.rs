//! From the bytes of a file to its lines of text.

use vstd::prelude::*;
use vstd::slice::slice_subrange;
use vstd::utf8::{decode_utf8, valid_utf8};

verus! {

/// `core::str::Utf8Error`: that some bytes are not UTF-8.
#[verifier::external_type_specification]
#[verifier::external_body]
pub struct ExUtf8Error(core::str::Utf8Error);

/// `core::str::from_utf8`.
///
/// Trusted: it succeeds exactly on well-formed UTF-8, and the string slice
/// it hands back holds the characters that those bytes encode.
pub assume_specification[ core::str::from_utf8 ](v: &[u8]) -> (r: Result<&str, core::str::Utf8Error>)
    ensures
        r is Ok == valid_utf8(v@),
        r matches Ok(s) ==> s@ == decode_utf8(v@),
;

/// The byte that ends a line.
pub const LINE_FEED: u8 = 0x0a;

/// The byte that, right before a line feed, belongs to the line's end.
pub const CARRIAGE_RETURN: u8 = 0x0d;

/// A line of a file that decoded as text, with its place in the file.
pub struct Line {
    /// The line's position among all the lines of the file, counted from 1.
    pub number: usize,
    /// The line without its terminator.
    pub text: String,
}

/// The mathematical value of a [`Line`].
pub struct LineModel {
    pub number: nat,
    pub text: Seq<char>,
}

impl View for Line {
    type V = LineModel;

    open spec fn view(&self) -> LineModel {
        LineModel { number: self.number as nat, text: self.text@ }
    }
}

/// The views of a sequence's items, in order.
pub open spec fn views<T: View>(items: Seq<T>) -> Seq<T::V> {
    items.map_values(|item: T| item@)
}

/// How many bytes stand before the first line feed of `bytes`: all of them
/// where it holds none.
pub open spec fn line_len(bytes: Seq<u8>) -> nat
    decreases bytes.len(),
{
    if bytes.len() == 0 || bytes[0] == LINE_FEED {
        0
    } else {
        1 + line_len(bytes.drop_first())
    }
}

/// The bytes of a line that a line feed ended, given the bytes before that
/// feed: a carriage return at their end goes with the terminator.
pub open spec fn before_terminator(line: Seq<u8>) -> Seq<u8> {
    if line.len() > 0 && line.last() == CARRIAGE_RETURN {
        line.drop_last()
    } else {
        line
    }
}

/// The lines of a file, terminators left out. A line ends with a line feed
/// or with the file; bytes after the last line feed form a line of their
/// own, and a file that ends in a line feed has no empty line after it.
pub open spec fn split_lines(bytes: Seq<u8>) -> Seq<Seq<u8>>
    decreases bytes.len(),
{
    if bytes.len() == 0 {
        Seq::empty()
    } else {
        let n = line_len(bytes) as int;
        if n < bytes.len() {
            seq![before_terminator(bytes.take(n))] + split_lines(bytes.skip(n + 1))
        } else {
            seq![bytes]
        }
    }
}

/// Of the raw lines `raw`, those that are well-formed UTF-8, decoded, each
/// with its 1-based position in `raw`.
pub open spec fn numbered(raw: Seq<Seq<u8>>) -> Seq<LineModel>
    decreases raw.len(),
{
    if raw.len() == 0 {
        Seq::empty()
    } else {
        let before = numbered(raw.drop_last());
        if valid_utf8(raw.last()) {
            before.push(LineModel { number: raw.len(), text: decode_utf8(raw.last()) })
        } else {
            before
        }
    }
}

/// The lines of text that a file's bytes hold: its lines that decode, each
/// under the number it has among all lines of the file.
pub open spec fn file_lines(content: Seq<u8>) -> Seq<LineModel> {
    numbered(split_lines(content))
}

/// `line_len` is the position of the first line feed, or the length.
proof fn lemma_line_len(bytes: Seq<u8>, n: int)
    requires
        0 <= n <= bytes.len(),
        forall|i: int| 0 <= i < n ==> bytes[i] != LINE_FEED,
        n == bytes.len() || bytes[n] == LINE_FEED,
    ensures
        line_len(bytes) == n,
    decreases n,
{
    if n > 0 {
        let rest = bytes.drop_first();
        assert forall|i: int| 0 <= i < n - 1 implies rest[i] != LINE_FEED by {
            assert(rest[i] == bytes[i + 1]);
        }
        lemma_line_len(rest, n - 1);
    }
}

/// What `numbered` adds for one more raw line.
proof fn lemma_numbered_push(raw: Seq<Seq<u8>>, line: Seq<u8>)
    ensures
        numbered(raw.push(line)) == if valid_utf8(line) {
            numbered(raw).push(LineModel { number: raw.len() + 1, text: decode_utf8(line) })
        } else {
            numbered(raw)
        },
{
    assert(raw.push(line).drop_last() =~= raw);
}

/// Decodes one raw line and, where it is text, appends it to `lines` under
/// the number `number`.
fn push_line(lines: &mut Vec<Line>, number: usize, raw: &[u8])
    ensures
        views(final(lines)@) == if valid_utf8(raw@) {
            views(old(lines)@).push(LineModel { number: number as nat, text: decode_utf8(raw@) })
        } else {
            views(old(lines)@)
        },
{
    match core::str::from_utf8(raw) {
        Ok(text) => {
            let line = Line { number, text: text.to_owned() };
            lines.push(line);
            assert(views(lines@) =~= views(old(lines)@).push(line@));
        },
        Err(_) => {},
    }
}

/// Splits a file's bytes into lines and keeps those that are text.
///
/// Each line that is kept carries the number it has among all the lines of
/// the file, so a line that does not decode leaves a gap in the numbers.
pub fn read_lines(content: &[u8]) -> (lines: Vec<Line>)
    ensures
        views(lines@) == file_lines(content@),
{
    let len = content.len();
    let mut lines: Vec<Line> = Vec::new();
    let mut start: usize = 0;
    let mut pos: usize = 0;
    let mut seen: usize = 0;
    let ghost mut raw: Seq<Seq<u8>> = Seq::empty();
    proof {
        assert(content@.skip(0) =~= content@);
        assert(views(lines@) =~= numbered(raw));
    }
    while pos < len
        invariant
            len == content@.len(),
            start <= pos <= len,
            seen == raw.len(),
            seen <= start,
            forall|i: int| start <= i < pos ==> content@[i] != LINE_FEED,
            split_lines(content@) == raw + split_lines(content@.skip(start as int)),
            views(lines@) == numbered(raw),
        decreases len - pos,
    {
        if content[pos] == LINE_FEED {
            let end = if pos > start && content[pos - 1] == CARRIAGE_RETURN {
                pos - 1
            } else {
                pos
            };
            let piece = slice_subrange(content, start, end);
            proof {
                let rest = content@.skip(start as int);
                let n = pos - start;
                assert forall|i: int| 0 <= i < n implies rest[i] != LINE_FEED by {
                    assert(rest[i] == content@[start + i]);
                }
                assert(rest[n] == content@[pos as int]);
                lemma_line_len(rest, n);
                assert(rest.take(n) =~= content@.subrange(start as int, pos as int));
                assert(before_terminator(rest.take(n)) =~= piece@);
                assert(rest.skip(n + 1) =~= content@.skip(pos + 1));
                assert(split_lines(rest) == seq![piece@] + split_lines(content@.skip(pos + 1)));
                assert(raw + (seq![piece@] + split_lines(content@.skip(pos + 1))) =~= raw.push(
                    piece@,
                ) + split_lines(content@.skip(pos + 1)));
                lemma_numbered_push(raw, piece@);
            }
            push_line(&mut lines, seen + 1, piece);
            proof {
                raw = raw.push(piece@);
            }
            seen = seen + 1;
            start = pos + 1;
        }
        pos = pos + 1;
    }
    if start < len {
        let piece = slice_subrange(content, start, len);
        proof {
            let rest = content@.skip(start as int);
            let n = len - start;
            assert forall|i: int| 0 <= i < n implies rest[i] != LINE_FEED by {
                assert(rest[i] == content@[start + i]);
            }
            lemma_line_len(rest, n);
            assert(rest =~= piece@);
            assert(split_lines(rest) =~= seq![piece@]);
            assert(raw + seq![piece@] =~= raw.push(piece@));
            lemma_numbered_push(raw, piece@);
        }
        push_line(&mut lines, seen + 1, piece);
    } else {
        proof {
            assert(content@.skip(start as int).len() == 0);
            assert(raw + Seq::<Seq<u8>>::empty() =~= raw);
        }
    }
    lines
}

} // verus!
