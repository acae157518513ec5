//! Forwarding a stream of server-sent events.

use std::collections::HashMap;

use vstd::prelude::*;
use vstd::slice::*;
use vstd::string::*;
use vstd::utf8::*;

use crate::chat::{broken_stream, done_event, error_event_of};
use crate::interop::{from_text, json_parse, json_text, to_text};
use crate::json::{opt_chars, opt_owned_json, Json, JsonValue};
use crate::lines::{
    bare, bare_len, decodes, first_line, joined, law_lines_make_the_stream, law_lines_of_pieces,
    line_end, line_text, lines, unfinished, utf8_lossy, LineBuffer,
};
use crate::text::{has_prefix, str_eq, strip_prefix, trim, trimmed};
use crate::tools::{
    call_index, call_name, delta_calls, fix_tool_call_name_overwrite, law_name_on_record_stays,
    law_named_call_goes_on_record, law_no_empty_name_in_chunk, mended_chunk, recorded, ToolNames,
};

verus! {

/// The data that a line of the stream carries for a reader that insists on the `data: ` prefix.
pub open spec fn payload(line: Seq<char>) -> Option<Seq<char>> {
    if has_prefix(line, "data: "@) {
        let data = trimmed(line.skip("data: "@.len() as int));
        if data.len() > 0 && data != "[DONE]"@ {
            Some(data)
        } else {
            None
        }
    } else {
        None
    }
}

/// What has been forwarded: the lines, and the tool names on record.
pub ghost struct Forwarded {
    pub sent: Seq<Seq<u8>>,
    pub names: Map<u32, Seq<char>>,
}

/// The line that is forwarded for `line`, which carries the JSON value `data` if it carries one:
/// the line as it is, unless the names of tool calls in it had to be mended. Even then it ends as
/// it came.
pub open spec fn forwarded_line(
    line: Seq<u8>,
    data: Option<Json>,
    fix: bool,
    names: Map<u32, Seq<char>>,
) -> Seq<u8> {
    match data {
        Some(chunk) => if fix && mended_chunk(chunk, names).changed {
            encode_utf8("data: "@ + json_text(mended_chunk(chunk, names).value)) + line_end(line)
        } else {
            line
        },
        None => line,
    }
}

/// The tool names on record after a line that carries `data`.
pub open spec fn names_after(
    data: Option<Json>,
    fix: bool,
    names: Map<u32, Seq<char>>,
) -> Map<u32, Seq<char>> {
    match data {
        Some(chunk) => if fix {
            mended_chunk(chunk, names).names
        } else {
            names
        },
        None => names,
    }
}

/// The JSON value that a line carries.
pub open spec fn line_data(line: Seq<u8>) -> Option<Json> {
    match payload(utf8_lossy(bare(line))) {
        Some(text) => json_parse(text),
        None => None,
    }
}

/// What has been forwarded after one more line.
pub open spec fn forward_one(before: Forwarded, line: Seq<u8>, fix: bool) -> Forwarded {
    Forwarded {
        sent: before.sent.push(forwarded_line(line, line_data(line), fix, before.names)),
        names: names_after(line_data(line), fix, before.names),
    }
}

/// What has been forwarded after some more lines.
pub open spec fn forward_all(
    before: Forwarded,
    more: Seq<Seq<u8>>,
    fix: bool,
) -> Forwarded
    decreases more.len(),
{
    if more.len() == 0 {
        before
    } else {
        forward_one(forward_all(before, more.drop_last(), fix), more.last(), fix)
    }
}

/// The line to forward for `line`, which carries `data`. The names in `data` go on record.
pub fn forward_parsed(
    line: &[u8],
    data: Option<JsonValue>,
    fix: bool,
    names: &mut ToolNames,
) -> (r: Vec<u8>)
    ensures
        r@ == forwarded_line(
            line@,
            opt_owned_json(data),
            fix,
            recorded(*old(names)),
        ),
        recorded(*final(names)) == names_after(
            opt_owned_json(data),
            fix,
            recorded(*old(names)),
        ),
{
    if let Some(parsed) = data {
        if fix {
            let mut chunk = parsed;
            if fix_tool_call_name_overwrite(&mut chunk, names) {
                let mut mended = "data: ".to_owned();
                let text = to_text(&chunk);
                mended.append(text.as_str());
                let mut bytes = slice_to_vec(mended.as_str().as_bytes());
                let n: usize = bare_len(line);
                let end = slice_subrange(line, n, line.len());
                assert(end@ =~= line_end(line@));
                bytes.extend_from_slice(end);
                assert(bytes@ =~= encode_utf8(mended@) + end@);
                return bytes;
            }
        }
    }
    slice_to_vec(line)
}

/// The JSON value that a line carries.
fn read_line_data(line: &[u8]) -> (r: Option<JsonValue>)
    ensures
        opt_owned_json(r) == line_data(line@),
        decodes(bare(line@)),
{
    let text = line_text(line);
    match strip_prefix(text.as_str(), "data: ") {
        Some(rest) => {
            let data = trim(rest);
            if !data.is_empty() && !str_eq(data, "[DONE]") {
                from_text(data)
            } else {
                None
            }
        },
        None => None,
    }
}

/// Forwards a stream of server-sent events.
pub struct StreamForwarder {
    buffer: LineBuffer,
    names: ToolNames,
    fix: bool,
    open: bool,
}

/// Whether an event is open after some more lines: the last of them is not blank.
pub open spec fn open_after(before: bool, more: Seq<Seq<u8>>) -> bool {
    if more.len() == 0 {
        before
    } else {
        bare(more.last()).len() > 0
    }
}

impl StreamForwarder {
    /// What has arrived of the line that is not finished yet.
    pub closed spec fn pending(self) -> Seq<u8> {
        self.buffer@
    }

    /// The tool names on record.
    pub closed spec fn names(self) -> Map<u32, Seq<char>> {
        recorded(self.names)
    }

    /// Whether the names of tool calls are mended.
    pub closed spec fn fixes(self) -> bool {
        self.fix
    }

    /// Whether a line of an event has been forwarded, and not yet the blank line that ends it.
    pub closed spec fn is_open(self) -> bool {
        self.open
    }

    /// A forwarder at the start of a stream.
    pub fn new(fix_tool_call_name: bool) -> (r: StreamForwarder)
        ensures
            r.pending() == Seq::<u8>::empty(),
            r.names() == Map::<u32, Seq<char>>::empty(),
            r.fixes() == fix_tool_call_name,
            !r.is_open(),
    {
        let r = StreamForwarder {
            buffer: LineBuffer::new(),
            names: HashMap::new(),
            fix: fix_tool_call_name,
            open: false,
        };
        assert(r.names() =~= Map::<u32, Seq<char>>::empty());
        r
    }

    /// Takes in the next piece of the stream, and hands out the lines that it completes.
    pub fn feed(&mut self, piece: &[u8]) -> (r: Vec<Vec<u8>>)
        ensures
            ({
                let stream = old(self).pending() + piece@;
                let before = Forwarded { sent: Seq::empty(), names: old(self).names() };
                let after = forward_all(before, lines(stream), old(self).fixes());
                &&& r@.map_values(|line: Vec<u8>| line@) == after.sent
                &&& final(self).names() == after.names
                &&& final(self).pending() == unfinished(stream)
                &&& final(self).fixes() == old(self).fixes()
                &&& final(self).is_open() == open_after(old(self).is_open(), lines(stream))
                &&& forall|i: int|
                    0 <= i < lines(stream).len() ==> decodes(bare(#[trigger] lines(stream)[i]))
            }),
    {
        self.buffer.push(piece);
        let ghost stream = self.buffer@;
        let ghost before = Forwarded { sent: Seq::empty(), names: self.names() };
        let ghost fix = self.fix;
        let ghost was_open = self.open;
        let mut sent: Vec<Vec<u8>> = Vec::new();
        let ghost mut seen: Seq<Seq<u8>> = Seq::empty();
        assert(seen + lines(stream) =~= lines(stream));
        assert(sent@.map_values(|line: Vec<u8>| line@) =~= Seq::empty());
        let mut more: bool = true;
        while more
            invariant
                fix == self.fix,
                seen + lines(self.buffer@) == lines(stream),
                unfinished(self.buffer@) == unfinished(stream),
                !more ==> first_line(self.buffer@) is None,
                sent@.map_values(|line: Vec<u8>| line@) == forward_all(before, seen, fix).sent,
                forall|i: int| 0 <= i < seen.len() ==> decodes(bare(#[trigger] seen[i])),
                recorded(self.names) == forward_all(before, seen, fix).names,
                self.open == open_after(was_open, seen),
            decreases self.buffer@.len() + if more { 1int } else { 0 },
        {
            let ghost left = self.buffer@;
            match self.buffer.next_line() {
                Some(line) => {
                    let ghost earlier = sent@;
                    self.open = bare_len(line.as_slice()) > 0;
                    let data = read_line_data(line.as_slice());
                    let passed_on = forward_parsed(
                        line.as_slice(),
                        data,
                        self.fix,
                        &mut self.names,
                    );
                    sent.push(passed_on);
                    proof {
                        assert(sent@.map_values(|line: Vec<u8>| line@) =~= earlier.map_values(
                            |line: Vec<u8>| line@,
                        ).push(passed_on@));
                        let longer = seen.push(line@);
                        assert(longer.drop_last() =~= seen);
                        assert(lines(left) =~= seq![line@] + lines(self.buffer@));
                        assert(longer + lines(self.buffer@) =~= seen + lines(left));
                        seen = longer;
                    }
                },
                None => {
                    more = false;
                },
            }
        }
        assert(seen =~= lines(stream));
        sent
    }

    /// What is sent when the stream has ended. If it broke off with an error, that is reported
    /// first. The line that was left unfinished is made an event, unless it is blank.
    pub fn ending(&self, error: Option<&str>) -> (r: Vec<String>)
        ensures
            r@.map_values(|event: String| event@) == ending_of(
                self.is_open(),
                utf8_lossy(self.pending()),
                opt_chars(error),
            ),
            decodes(self.pending()),
    {
        let mut events: Vec<String> = Vec::new();
        if let Some(error) = error {
            if self.open {
                events.push("\n".to_owned());
            }
            let (report, end) = broken_stream(error);
            events.push(report);
            events.push(end);
        }
        let text = self.buffer.pending_text();
        let rest = trim(text.as_str());
        if !rest.is_empty() {
            let mut event = rest.to_owned();
            event.append("\n\n");
            events.push(event);
        }
        assert(events@.map_values(|event: String| event@) =~= ending_of(
            self.is_open(),
            utf8_lossy(self.pending()),
            opt_chars(error),
        ));
        events
    }
}

/// What reports that a stream broke off: the blank line that ends an open event, the report, and
/// the end.
pub open spec fn report_of(open: bool, error: Seq<char>) -> Seq<Seq<char>> {
    let report = seq![error_event_of("Stream error: "@ + error, "stream_error"@), done_event()];
    if open {
        seq!["\n"@] + report
    } else {
        report
    }
}

/// What is sent when a stream has ended, that left `rest` unfinished: the report where it broke off
/// with an error, and the rest, unless it is blank.
pub open spec fn ending_of(
    open: bool,
    rest: Seq<char>,
    error: Option<Seq<char>>,
) -> Seq<Seq<char>> {
    let report = match error {
        Some(error) => report_of(open, error),
        None => Seq::empty(),
    };
    if trimmed(rest).len() == 0 {
        report
    } else {
        report.push(trimmed(rest) + "\n\n"@)
    }
}

/// Lines can be forwarded in two goes.
proof fn lemma_forward_concat(
    before: Forwarded,
    a: Seq<Seq<u8>>,
    b: Seq<Seq<u8>>,
    fix: bool,
)
    ensures
        forward_all(before, a + b, fix) == forward_all(forward_all(before, a, fix), b, fix),
    decreases b.len(),
{
    if b.len() == 0 {
        assert(a + b =~= a);
    } else {
        assert((a + b).drop_last() =~= a + b.drop_last());
        lemma_forward_concat(before, a, b.drop_last(), fix);
    }
}

/// The lines that were sent before have no influence on those to come.
proof fn lemma_forward_sent(before: Forwarded, more: Seq<Seq<u8>>, fix: bool)
    ensures
        ({
            let fresh = Forwarded { sent: Seq::empty(), names: before.names };
            &&& forward_all(before, more, fix).sent == before.sent + forward_all(
                fresh,
                more,
                fix,
            ).sent
            &&& forward_all(before, more, fix).names == forward_all(fresh, more, fix).names
        }),
    decreases more.len(),
{
    let fresh = Forwarded { sent: Seq::empty(), names: before.names };
    if more.len() > 0 {
        lemma_forward_sent(before, more.drop_last(), fix);
    }
    assert(forward_all(before, more, fix).sent =~= before.sent + forward_all(
        fresh,
        more,
        fix,
    ).sent);
}

/// It makes no difference into which pieces the upstream cuts its stream, be it inside a character:
/// what is sent for one piece and then for the next is what is sent for the two as one piece.
pub proof fn law_forward_pieces(
    a: Seq<u8>,
    b: Seq<u8>,
    names: Map<u32, Seq<char>>,
    fix: bool,
)
    ensures
        ({
            let start = Forwarded { sent: Seq::empty(), names };
            let first = forward_all(start, lines(a), fix);
            let second = forward_all(
                Forwarded { sent: Seq::empty(), names: first.names },
                lines(unfinished(a) + b),
                fix,
            );
            let whole = forward_all(start, lines(a + b), fix);
            &&& whole.sent == first.sent + second.sent
            &&& whole.names == second.names
            &&& unfinished(a + b) == unfinished(unfinished(a) + b)
        }),
{
    let start = Forwarded { sent: Seq::empty(), names };
    law_lines_of_pieces(a, b);
    lemma_forward_concat(start, lines(a), lines(unfinished(a) + b), fix);
    lemma_forward_sent(forward_all(start, lines(a), fix), lines(unfinished(a) + b), fix);
}

/// A name on record stays on record through the rest of the stream, as it is.
pub proof fn law_name_lasts_through_stream(
    before: Forwarded,
    more: Seq<Seq<u8>>,
    fix: bool,
    index: u32,
)
    requires
        before.names.contains_key(index),
    ensures
        forward_all(before, more, fix).names.contains_key(index),
        forward_all(before, more, fix).names[index] == before.names[index],
    decreases more.len(),
{
    if more.len() > 0 {
        law_name_lasts_through_stream(before, more.drop_last(), fix, index);
        if let Some(chunk) = line_data(more.last()) {
            law_name_on_record_stays(
                chunk,
                forward_all(before, more.drop_last(), fix).names,
                index,
            );
        }
    }
}

/// The repair of tool calls in a stream: once a chunk has named the tool call at a position, no
/// later chunk is passed on with an empty name at that position, whatever comes in between.
/// `first_calls[fk]` is the call that bears the name, `calls[k]` any later call at its position.
pub proof fn law_no_empty_name_after_a_name(
    before: Forwarded,
    first: Json,
    first_choices: Seq<Json>,
    first_calls: Seq<Json>,
    fc: int,
    fk: int,
    between: Seq<Seq<u8>>,
    chunk: Json,
    choices: Seq<Json>,
    calls: Seq<Json>,
    c: int,
    k: int,
)
    requires
        first.field("choices"@) == Some(Json::Array(first_choices)),
        0 <= fc < first_choices.len(),
        delta_calls(first_choices[fc]) == Some(first_calls),
        0 <= fk < first_calls.len(),
        call_name(first_calls[fk]) is Some,
        call_name(first_calls[fk])->0.len() > 0,
        chunk.field("choices"@) == Some(Json::Array(choices)),
        0 <= c < choices.len(),
        delta_calls(choices[c]) == Some(calls),
        0 <= k < calls.len(),
        call_index(calls[k]) == call_index(first_calls[fk]),
    ensures
        ({
            let named = Forwarded {
                names: names_after(Some(first), true, before.names),
                ..before
            };
            let names = forward_all(named, between, true).names;
            let passed_on = mended_chunk(chunk, names).value;
            let choice = passed_on.field("choices"@)->0->Array_0[c];
            &&& passed_on.field("choices"@) is Some
            &&& delta_calls(choice) is Some
            &&& call_name(delta_calls(choice)->0[k]) != Some(Seq::<char>::empty())
        }),
{
    let named = Forwarded { names: names_after(Some(first), true, before.names), ..before };
    law_named_call_goes_on_record(first, before.names, first_choices, first_calls, fc, fk);
    law_name_lasts_through_stream(named, between, true, call_index(calls[k]));
    law_no_empty_name_in_chunk(
        chunk,
        forward_all(named, between, true).names,
        choices,
        calls,
        c,
        k,
    );
}

/// Where tool names are not to be mended, or a line carries no JSON, or nothing in it has to be
/// mended, the line is passed on as it is.
pub proof fn law_line_is_passed_on(
    line: Seq<u8>,
    data: Option<Json>,
    fix: bool,
    names: Map<u32, Seq<char>>,
)
    requires
        !fix || data is None || !mended_chunk(data->0, names).changed,
    ensures
        forwarded_line(line, data, fix, names) == line,
{
}

/// A stream in which nothing is mended is passed on as it is: line by line, and byte by byte.
/// Nothing is mended where that is switched off, nor in lines that do not call for it.
pub proof fn law_stream_is_passed_on(
    stream: Seq<u8>,
    names: Map<u32, Seq<char>>,
    fix: bool,
)
    requires
        fix ==> forall|i: int|
            0 <= i < lines(stream).len() && line_data(#[trigger] lines(stream)[i]) is Some
                ==> !mended_chunk(
                line_data(lines(stream)[i])->0,
                forward_all(
                    Forwarded { sent: Seq::empty(), names },
                    lines(stream).take(i),
                    fix,
                ).names,
            ).changed,
    ensures
        ({
            let after = forward_all(Forwarded { sent: Seq::empty(), names }, lines(stream), fix);
            &&& after.sent == lines(stream)
            &&& joined(after.sent) + unfinished(stream) == stream
        }),
{
    let start = Forwarded { sent: Seq::empty(), names };
    let all = lines(stream);
    lemma_passed_on(start, all, fix, all.len() as int);
    assert(all.take(all.len() as int) =~= all);
    law_lines_make_the_stream(stream);
}

/// The first lines are passed on as they are.
proof fn lemma_passed_on(start: Forwarded, all: Seq<Seq<u8>>, fix: bool, n: int)
    requires
        start.sent.len() == 0,
        0 <= n <= all.len(),
        fix ==> forall|i: int|
            0 <= i < all.len() && line_data(#[trigger] all[i]) is Some ==> !mended_chunk(
                line_data(all[i])->0,
                forward_all(start, all.take(i), fix).names,
            ).changed,
    ensures
        forward_all(start, all.take(n), fix).sent == all.take(n),
    decreases n,
{
    if n > 0 {
        lemma_passed_on(start, all, fix, n - 1);
        assert(all.take(n).drop_last() =~= all.take(n - 1));
        assert(all.take(n).last() == all[n - 1]);
        assert(all.take(n) =~= all.take(n - 1).push(all[n - 1]));
    } else {
        assert(all.take(0) =~= Seq::empty());
        assert(start.sent =~= Seq::empty());
    }
}

} // verus!
