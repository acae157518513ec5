//! Cutting a stream of bytes that arrives in pieces into lines.

use vstd::prelude::*;
use vstd::utf8::*;

use crate::text::{lemma_position, lemma_position_is, position, trimmed_end};

verus! {

/// The line feed.
pub const LF: u8 = 10;

/// The carriage return.
pub const CR: u8 = 13;

/// The first line of a stream, with the line feed that ends it. Without a line feed there is no
/// line yet. No character but the line feed itself has that byte in its UTF-8 form, so a line never
/// begins or ends inside a character.
pub open spec fn first_line(stream: Seq<u8>) -> Option<Seq<u8>> {
    match position(stream, LF) {
        Some(i) => Some(stream.take(i + 1)),
        None => None,
    }
}

/// What a line says: the line without the line feed, and the carriage returns before it, that end
/// it.
pub open spec fn bare(line: Seq<u8>) -> Seq<u8> {
    if line.len() == 0 {
        line
    } else {
        trimmed_end(line.drop_last(), CR)
    }
}

/// What ends a line.
pub open spec fn line_end(line: Seq<u8>) -> Seq<u8> {
    line.skip(bare(line).len() as int)
}

/// What follows the first line.
pub open spec fn after_line(stream: Seq<u8>) -> Seq<u8> {
    match position(stream, LF) {
        Some(i) => stream.skip(i + 1),
        None => stream,
    }
}

/// The lines of a stream.
pub open spec fn lines(stream: Seq<u8>) -> Seq<Seq<u8>>
    decreases stream.len(),
{
    proof {
        lemma_position(stream, LF);
    }
    match first_line(stream) {
        Some(line) => seq![line] + lines(after_line(stream)),
        None => Seq::empty(),
    }
}

/// What follows the last line.
pub open spec fn unfinished(stream: Seq<u8>) -> Seq<u8>
    decreases stream.len(),
{
    proof {
        lemma_position(stream, LF);
    }
    match first_line(stream) {
        Some(_) => unfinished(after_line(stream)),
        None => stream,
    }
}

/// It makes no difference where a stream is cut into pieces, be it inside a character: the lines of
/// the first piece, and then those of what it left unfinished together with the second, are the
/// lines of the whole.
pub proof fn law_lines_of_pieces(a: Seq<u8>, b: Seq<u8>)
    ensures
        lines(a + b) == lines(a) + lines(unfinished(a) + b),
        unfinished(a + b) == unfinished(unfinished(a) + b),
    decreases a.len(),
{
    lemma_position(a, LF);
    match position(a, LF) {
        Some(i) => {
            lemma_position_is(a + b, LF, i);
            assert((a + b).take(i + 1) =~= a.take(i + 1));
            assert((a + b).skip(i + 1) =~= a.skip(i + 1) + b);
            law_lines_of_pieces(a.skip(i + 1), b);
            assert(lines(a + b) =~= lines(a) + lines(unfinished(a) + b));
        },
        None => {
            assert(lines(a) + lines(a + b) =~= lines(a + b));
        },
    }
}

/// The stream that lines make, one after the other.
pub open spec fn joined(all: Seq<Seq<u8>>) -> Seq<u8>
    decreases all.len(),
{
    if all.len() == 0 {
        Seq::empty()
    } else {
        joined(all.drop_last()) + all.last()
    }
}

proof fn lemma_joined_concat(a: Seq<Seq<u8>>, b: Seq<Seq<u8>>)
    ensures
        joined(a + b) == joined(a) + joined(b),
    decreases b.len(),
{
    if b.len() == 0 {
        assert(a + b =~= a);
        assert(joined(a) + joined(b) =~= joined(a));
    } else {
        assert((a + b).drop_last() =~= a + b.drop_last());
        lemma_joined_concat(a, b.drop_last());
        assert(joined(a + b) =~= joined(a) + joined(b));
    }
}

/// Nothing of a stream is lost or changed when it is cut into lines: its lines, one after the
/// other, and what follows the last of them are the stream.
pub proof fn law_lines_make_the_stream(stream: Seq<u8>)
    ensures
        joined(lines(stream)) + unfinished(stream) == stream,
    decreases stream.len(),
{
    lemma_position(stream, LF);
    match position(stream, LF) {
        Some(i) => {
            let line = stream.take(i + 1);
            let rest = stream.skip(i + 1);
            law_lines_make_the_stream(rest);
            lemma_joined_concat(seq![line], lines(rest));
            assert(joined(seq![line].drop_last()) =~= Seq::empty());
            assert(joined(seq![line]) =~= line);
            assert(joined(lines(stream)) + unfinished(stream) =~= line + (joined(lines(rest))
                + unfinished(rest)));
            assert(line + rest =~= stream);
        },
        None => {
            assert(joined(lines(stream)) + unfinished(stream) =~= stream);
        },
    }
}

proof fn lemma_trim_shortens(s: Seq<u8>, end: u8)
    ensures
        trimmed_end(s, end).len() <= s.len(),
        trimmed_end(s, end) == s.take(trimmed_end(s, end).len() as int),
    decreases s.len(),
{
    if s.len() > 0 && s.last() == end {
        lemma_trim_shortens(s.drop_last(), end);
        let n = trimmed_end(s, end).len() as int;
        assert(s.drop_last().take(n) =~= s.take(n));
    } else {
        assert(s.take(s.len() as int) =~= s);
    }
}

/// A line is what it says, and what ends it.
pub proof fn law_line_parts(line: Seq<u8>)
    ensures
        bare(line).len() <= line.len(),
        bare(line) + line_end(line) == line,
{
    let n = bare(line).len() as int;
    if line.len() > 0 {
        lemma_trim_shortens(line.drop_last(), CR);
        assert(line.drop_last().take(n) =~= line.take(n));
    } else {
        assert(line.take(n) =~= line);
    }
    assert(line.take(n) + line.skip(n) =~= line);
}

/// `line` without the carriage returns at its end.
fn trim_returns(line: &[u8], len: usize) -> (r: usize)
    requires
        len <= line@.len(),
    ensures
        r <= len,
        line@.take(r as int) == trimmed_end(line@.take(len as int), CR),
{
    let mut n: usize = len;
    while n > 0 && line[n - 1] == CR
        invariant
            n <= len <= line@.len(),
            trimmed_end(line@.take(len as int), CR) == trimmed_end(line@.take(n as int), CR),
        decreases n,
    {
        assert(line@.take(n as int).drop_last() =~= line@.take(n - 1));
        n = n - 1;
    }
    n
}

/// How many bytes of a line are what it says.
pub fn bare_len(line: &[u8]) -> (r: usize)
    ensures
        r <= line@.len(),
        line@.take(r as int) == bare(line@),
{
    let len: usize = line.len();
    if len == 0 {
        assert(line@.take(0) =~= line@);
        return 0;
    }
    assert(line@.take(len - 1) =~= line@.drop_last());
    trim_returns(line, len - 1)
}

/// What `String::from_utf8_lossy` makes of a byte string.
pub uninterp spec fn utf8_lossy(bytes: Seq<u8>) -> Seq<char>;

/// Whether `utf8_lossy` decodes a byte string as it should: where the byte string is UTF-8, the
/// result is the text that it encodes.
pub open spec fn decodes(bytes: Seq<u8>) -> bool {
    valid_utf8(bytes) ==> utf8_lossy(bytes) == decode_utf8(bytes)
}

/// Calls `String::from_utf8_lossy`. A byte string that is UTF-8 is decoded; where it is not, the
/// result is some text that depends on nothing but the bytes.
#[verifier::external_body]
pub(crate) fn decode_lossy(bytes: &[u8]) -> (r: String)
    ensures
        r@ == utf8_lossy(bytes@),
        valid_utf8(bytes@) ==> r@ == decode_utf8(bytes@),
{
    String::from_utf8_lossy(bytes).into_owned()
}

/// What a line says, as text.
pub fn line_text(line: &[u8]) -> (r: String)
    ensures
        r@ == utf8_lossy(bare(line@)),
        decodes(bare(line@)),
{
    let n: usize = bare_len(line);
    let said = vstd::slice::slice_subrange(line, 0, n);
    assert(said@ =~= bare(line@));
    decode_lossy(said)
}

/// A stream of bytes that arrives in pieces.
pub struct LineBuffer {
    bytes: Vec<u8>,
}

impl View for LineBuffer {
    type V = Seq<u8>;

    closed spec fn view(&self) -> Seq<u8> {
        self.bytes@
    }
}

impl LineBuffer {
    /// A buffer that holds nothing.
    pub fn new() -> (r: LineBuffer)
        ensures
            r@ == Seq::<u8>::empty(),
    {
        LineBuffer { bytes: Vec::new() }
    }

    /// Adds a piece.
    pub fn push(&mut self, piece: &[u8])
        ensures
            final(self)@ == old(self)@ + piece@,
    {
        self.bytes.extend_from_slice(piece);
        assert(self.bytes@ =~= old(self).bytes@ + piece@);
    }

    /// Takes the first line out, with the line feed that ends it.
    pub fn next_line(&mut self) -> (r: Option<Vec<u8>>)
        ensures
            match r {
                Some(line) => first_line(old(self)@) == Some(line@),
                None => first_line(old(self)@) is None,
            },
            final(self)@ == after_line(old(self)@),
            r is Some ==> final(self)@.len() < old(self)@.len(),
    {
        let ghost all = self.bytes@;
        let mut i: usize = 0;
        while i < self.bytes.len() && self.bytes[i] != LF
            invariant
                self.bytes@ == all,
                i <= all.len(),
                forall|j: int| 0 <= j < i ==> all[j] != LF,
            decreases all.len() - i,
        {
            i = i + 1;
        }
        if i == self.bytes.len() {
            proof {
                lemma_position(all, LF);
            }
            return None;
        }
        proof {
            lemma_position_is(all, LF, i as int);
        }
        let rest = self.bytes.split_off(i + 1);
        let mut line = rest;
        std::mem::swap(&mut line, &mut self.bytes);
        assert(line@ =~= all.take(i + 1));
        assert(self.bytes@ =~= all.skip(i + 1));
        Some(line)
    }

    /// What has arrived since the last line that was taken out, as text.
    pub fn pending_text(&self) -> (r: String)
        ensures
            r@ == utf8_lossy(self@),
            decodes(self@),
    {
        decode_lossy(self.bytes.as_slice())
    }
}

} // verus!
