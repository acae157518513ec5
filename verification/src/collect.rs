//! Collecting a stream of server-sent events into one answer.

use vstd::prelude::*;
use vstd::string::*;

use crate::interop::{from_text, json_parse};
use crate::json::{opt_chars, Json, JsonValue};
use crate::lines::{
    bare, bare_len, decodes, first_line, law_lines_of_pieces, line_text, lines, unfinished,
    utf8_lossy, LineBuffer,
};
use crate::text::{has_prefix, str_eq, strip_prefix, trim, trimmed};

verus! {

/// The text that a field `slot` of the first choice of a chunk carries as its content.
pub open spec fn slot_content(chunk: Json, slot: Seq<char>) -> Option<Seq<char>> {
    match chunk.field("choices"@) {
        Some(choices) => match choices.element(0) {
            Some(choice) => match choice.field(slot) {
                Some(message) => match message.field("content"@) {
                    Some(content) => content.text(),
                    None => None,
                },
                None => None,
            },
            None => None,
        },
        None => None,
    }
}

/// The text that `slot` of the first choice of a chunk carries.
fn content_in<'a>(data: &'a JsonValue, slot: &str) -> (r: Option<&'a str>)
    ensures
        opt_chars(r) == slot_content(data@, slot@),
{
    match data.get("choices") {
        Some(choices) => match choices.get_index(0) {
            Some(choice) => match choice.get(slot) {
                Some(message) => match message.get("content") {
                    Some(content) => content.as_str(),
                    None => None,
                },
                None => None,
            },
            None => None,
        },
        None => None,
    }
}

/// The text that a chunk of a stream adds to the answer.
pub fn extract_openai_content(data: &JsonValue) -> (r: Option<&str>)
    ensures
        opt_chars(r) == slot_content(data@, "delta"@),
{
    content_in(data, "delta")
}

/// What has been collected of an answer.
#[verifier::ext_equal]
pub ghost struct Collected {
    pub content: Seq<char>,
    /// The model that the upstream named last.
    pub model: Seq<char>,
    /// The usage that the upstream reported last; `null` where it has not.
    pub usage: Json,
    /// Whether the upstream has said that it is done.
    pub done: bool,
}

/// `content` with the text that `slot` of a chunk carries.
pub open spec fn extended(content: Seq<char>, chunk: Json, slot: Seq<char>) -> Seq<char> {
    match slot_content(chunk, slot) {
        Some(text) => content + text,
        None => content,
    }
}

/// What has been collected after one more chunk: its text is added, its model and its usage
/// replace those before.
pub open spec fn absorbed(before: Collected, chunk: Json) -> Collected {
    Collected {
        content: extended(extended(before.content, chunk, "delta"@), chunk, "message"@),
        model: match chunk.field("model"@) {
            Some(Json::Str(model)) => model,
            _ => before.model,
        },
        usage: match chunk.field("usage"@) {
            Some(usage) => if usage == Json::Null {
                before.usage
            } else {
                usage
            },
            None => before.usage,
        },
        done: before.done,
    }
}

/// The data that a line carries for a reader that does without the `data: ` prefix.
pub open spec fn line_content(line: Seq<char>) -> Seq<char> {
    trimmed(
        if has_prefix(line, "data: "@) {
            line.skip("data: "@.len() as int)
        } else {
            line
        },
    )
}

/// What has been collected after one more line. Once the upstream is done, and on an empty line,
/// nothing changes; nor on a line that holds no JSON.
pub open spec fn collect_one(before: Collected, line: Seq<u8>) -> Collected {
    if before.done || bare(line).len() == 0 {
        before
    } else if line_content(utf8_lossy(bare(line))) == "[DONE]"@ {
        Collected { done: true, ..before }
    } else {
        match json_parse(line_content(utf8_lossy(bare(line)))) {
            Some(chunk) => absorbed(before, chunk),
            None => before,
        }
    }
}

/// What has been collected after some more lines.
pub open spec fn collect_all(before: Collected, more: Seq<Seq<u8>>) -> Collected
    decreases more.len(),
{
    if more.len() == 0 {
        before
    } else {
        collect_one(collect_all(before, more.drop_last()), more.last())
    }
}

/// Collects a stream of server-sent events into one answer.
pub struct StreamCollector {
    buffer: LineBuffer,
    content: String,
    model: String,
    usage: JsonValue,
    done: bool,
}

impl StreamCollector {
    /// What has been collected.
    pub closed spec fn collected(self) -> Collected {
        Collected {
            content: self.content@,
            model: self.model@,
            usage: self.usage@,
            done: self.done,
        }
    }

    /// What has arrived of the line that is not finished yet.
    pub closed spec fn pending(self) -> Seq<u8> {
        self.buffer@
    }

    /// A collector at the start of a stream.
    pub fn new() -> (r: StreamCollector)
        ensures
            r.pending() == Seq::<u8>::empty(),
            r.collected() == (Collected {
                content: Seq::empty(),
                model: Seq::empty(),
                usage: Json::Null,
                done: false,
            }),
    {
        StreamCollector {
            buffer: LineBuffer::new(),
            content: String::new(),
            model: String::new(),
            usage: JsonValue::Null,
            done: false,
        }
    }

    /// Takes in a chunk.
    pub fn absorb(&mut self, chunk: &JsonValue)
        ensures
            final(self).collected() == absorbed(old(self).collected(), chunk@),
            final(self).pending() == old(self).pending(),
    {
        if let Some(JsonValue::Str(model)) = chunk.get("model") {
            self.model = model.clone();
        }
        if let Some(text) = extract_openai_content(chunk) {
            self.content.append(text);
        }
        if let Some(text) = content_in(chunk, "message") {
            self.content.append(text);
        }
        if let Some(usage) = chunk.get("usage") {
            if !usage.is_null() {
                self.usage = usage.clone();
            }
        }
    }

    /// Takes in a line.
    fn collect_line(&mut self, raw: &[u8])
        ensures
            decodes(bare(raw@)),
            final(self).collected() == collect_one(old(self).collected(), raw@),
            final(self).pending() == old(self).pending(),
    {
        let text = line_text(raw);
        let line = text.as_str();
        if self.done || bare_len(raw) == 0 {
            return;
        }
        let data = match strip_prefix(line, "data: ") {
            Some(rest) => trim(rest),
            None => trim(line),
        };
        if str_eq(data, "[DONE]") {
            self.done = true;
        } else if let Some(chunk) = from_text(data) {
            self.absorb(&chunk);
        }
    }

    /// Takes in the next piece of the stream. Whether the upstream has said that it is done.
    pub fn feed(&mut self, piece: &[u8]) -> (r: bool)
        ensures
            ({
                let stream = old(self).pending() + piece@;
                &&& final(self).collected() == collect_all(old(self).collected(), lines(stream))
                &&& final(self).pending() == unfinished(stream)
                &&& r == final(self).collected().done
                &&& forall|i: int|
                    0 <= i < lines(stream).len() ==> decodes(bare(#[trigger] lines(stream)[i]))
            }),
    {
        let ghost before = self.collected();
        self.buffer.push(piece);
        let ghost stream = self.buffer@;
        let ghost mut seen: Seq<Seq<u8>> = Seq::empty();
        assert(seen + lines(stream) =~= lines(stream));
        let mut more: bool = true;
        while more
            invariant
                seen + lines(self.buffer@) == lines(stream),
                unfinished(self.buffer@) == unfinished(stream),
                !more ==> first_line(self.buffer@) is None,
                self.collected() == collect_all(before, seen),
                forall|i: int| 0 <= i < seen.len() ==> decodes(bare(#[trigger] seen[i])),
            decreases self.buffer@.len() + if more { 1int } else { 0 },
        {
            let ghost left = self.buffer@;
            match self.buffer.next_line() {
                Some(line) => {
                    self.collect_line(line.as_slice());
                    proof {
                        let longer = seen.push(line@);
                        assert(longer.drop_last() =~= seen);
                        assert(lines(left) =~= seq![line@] + lines(self.buffer@));
                        assert(longer + lines(self.buffer@) =~= seen + lines(left));
                        seen = longer;
                    }
                },
                None => {
                    more = false;
                },
            }
        }
        assert(seen =~= lines(stream));
        self.done
    }

    /// The answer: its content, the model that the upstream named, and the usage it reported.
    pub fn into_answer(self) -> (r: (String, String, JsonValue))
        ensures
            r.0@ == self.collected().content,
            r.1@ == self.collected().model,
            r.2@ == self.collected().usage,
    {
        (self.content, self.model, self.usage)
    }
}

/// Lines can be collected in two goes.
pub proof fn lemma_collect_concat(before: Collected, a: Seq<Seq<u8>>, b: Seq<Seq<u8>>)
    ensures
        collect_all(before, a + b) == collect_all(collect_all(before, a), b),
    decreases b.len(),
{
    if b.len() == 0 {
        assert(a + b =~= a);
    } else {
        assert((a + b).drop_last() =~= a + b.drop_last());
        lemma_collect_concat(before, a, b.drop_last());
    }
}

/// It makes no difference into which pieces the upstream cuts its stream, be it inside a character.
pub proof fn law_collect_pieces(before: Collected, a: Seq<u8>, b: Seq<u8>)
    ensures
        collect_all(before, lines(a + b)) == collect_all(
            collect_all(before, lines(a)),
            lines(unfinished(a) + b),
        ),
        unfinished(a + b) == unfinished(unfinished(a) + b),
{
    law_lines_of_pieces(a, b);
    lemma_collect_concat(before, lines(a), lines(unfinished(a) + b));
}

/// Once the upstream has said that it is done, nothing that follows counts.
pub proof fn law_nothing_after_done(before: Collected, more: Seq<Seq<u8>>)
    requires
        before.done,
    ensures
        collect_all(before, more) == before,
    decreases more.len(),
{
    if more.len() > 0 {
        law_nothing_after_done(before, more.drop_last());
    }
}

/// What has been collected is never taken back: the content only grows at its end.
pub proof fn law_content_only_grows(before: Collected, more: Seq<Seq<u8>>)
    ensures
        before.content.len() <= collect_all(before, more).content.len(),
        collect_all(before, more).content.take(before.content.len() as int) == before.content,
    decreases more.len(),
{
    if more.len() > 0 {
        law_content_only_grows(before, more.drop_last());
        let mid = collect_all(before, more.drop_last());
        let end = collect_all(before, more);
        assert(end.content.take(mid.content.len() as int) =~= mid.content);
        assert(end.content.take(before.content.len() as int) =~= mid.content.take(
            before.content.len() as int,
        ));
    } else {
        assert(before.content.take(before.content.len() as int) =~= before.content);
    }
}

} // verus!
