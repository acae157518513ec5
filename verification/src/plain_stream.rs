//! What is read from a stream, forwarded and collected, in plain terms: bytes, characters and the
//! fields of JSON values by their names.

use vstd::prelude::*;
use vstd::string::*;
use vstd::utf8::*;

use crate::collect::{
    absorbed, collect_all, collect_one, law_nothing_after_done, lemma_collect_concat, line_content,
    Collected,
};
use crate::forward::{ending_of, forward_all, forward_one, line_data, open_after, Forwarded};
use crate::interop::{json_parse, json_text};
use crate::json::Json;
use crate::lines::{bare, line_end, lines, unfinished, utf8_lossy};
use crate::number::number_u64;
use crate::text::{
    has_prefix, is_space, lemma_position, position, trim_end_where, trim_start_where, trimmed,
    trimmed_end,
};
use crate::tools::{
    call_index, call_name, delta_calls, law_unchanged_means_unchanged, lemma_calls_keep,
    lemma_choices_keep, lemma_each_call, lemma_each_choice, mended_call, mended_calls,
    mended_choice, mended_choices, mended_chunk, recorded, ToolNames,
};

verus! {

/// The code points of white space.
pub open spec fn is_white(c: char) -> bool {
    let n = c as int;
    ||| n == 9 || n == 10 || n == 11 || n == 12 || n == 13
    ||| n == 32 || n == 133 || n == 160 || n == 5760
    ||| 8192 <= n <= 8202
    ||| n == 8232 || n == 8233 || n == 8239 || n == 8287 || n == 12288
}

/// Whether a text is nothing but white space.
pub open spec fn is_blank(text: Seq<char>) -> bool {
    forall|i: int| 0 <= i < text.len() ==> is_white(#[trigger] text[i])
}

/// Whether a text is not empty and has no white space at its ends.
pub open spec fn is_tight(text: Seq<char>) -> bool {
    text.len() > 0 && !is_white(text[0]) && !is_white(text.last())
}

/// What counts as white space.
pub proof fn law_white_space(c: char)
    ensures
        is_space(c) == is_white(c),
{
}

proof fn lemma_trim_start(a: Seq<char>, rest: Seq<char>)
    requires
        is_blank(a),
    ensures
        trim_start_where(a + rest, |c: char| is_space(c)) == trim_start_where(
            rest,
            |c: char| is_space(c),
        ),
    decreases a.len(),
{
    if a.len() == 0 {
        assert(a + rest =~= rest);
    } else {
        assert(is_white(a[0]));
        assert((a + rest).drop_first() =~= a.drop_first() + rest);
        assert forall|i: int| 0 <= i < a.drop_first().len() implies is_white(
            #[trigger] a.drop_first()[i],
        ) by {
            assert(is_white(a[i + 1]));
        }
        lemma_trim_start(a.drop_first(), rest);
    }
}

proof fn lemma_trim_end(rest: Seq<char>, b: Seq<char>)
    requires
        is_blank(b),
    ensures
        trim_end_where(rest + b, |c: char| is_space(c)) == trim_end_where(
            rest,
            |c: char| is_space(c),
        ),
    decreases b.len(),
{
    if b.len() == 0 {
        assert(rest + b =~= rest);
    } else {
        assert(is_white(b[b.len() - 1]));
        assert((rest + b).drop_last() =~= rest + b.drop_last());
        assert forall|i: int| 0 <= i < b.drop_last().len() implies is_white(
            #[trigger] b.drop_last()[i],
        ) by {
            assert(is_white(b[i]));
        }
        lemma_trim_end(rest, b.drop_last());
    }
}

/// Trimming takes away the white space at both ends, and nothing else.
pub proof fn law_trimmed(a: Seq<char>, text: Seq<char>, b: Seq<char>)
    requires
        is_blank(a),
        is_blank(b),
        text.len() == 0 || is_tight(text),
    ensures
        trimmed(a + text + b) == text,
{
    let space = |c: char| is_space(c);
    if text.len() == 0 {
        assert(a + text + b =~= (a + b) + Seq::<char>::empty());
        assert(is_blank(a + b));
        lemma_trim_start(a + b, Seq::empty());
        assert(trim_start_where(Seq::<char>::empty(), space) =~= Seq::empty());
        assert(trimmed(a + text + b) =~= text);
    } else {
        assert(a + text + b =~= a + (text + b));
        lemma_trim_start(a, text + b);
        assert((text + b)[0] == text[0]);
        assert(trim_start_where(text + b, space) == text + b);
        lemma_trim_end(text, b);
    }
}

/// A trimmed text has no white space at its ends.
pub proof fn law_trimmed_is_tight(text: Seq<char>)
    ensures
        trimmed(text).len() == 0 || is_tight(trimmed(text)),
{
    let space = |c: char| is_space(c);
    lemma_start_tight(text);
    lemma_end_tight(trim_start_where(text, space));
}

proof fn lemma_start_tight(text: Seq<char>)
    ensures
        ({
            let rest = trim_start_where(text, |c: char| is_space(c));
            rest.len() == 0 || !is_white(rest[0])
        }),
    decreases text.len(),
{
    if text.len() > 0 && is_space(text[0]) {
        lemma_start_tight(text.drop_first());
    }
}

proof fn lemma_end_tight(text: Seq<char>)
    ensures
        ({
            let rest = trim_end_where(text, |c: char| is_space(c));
            &&& rest.len() == 0 || !is_white(rest.last())
            &&& rest.len() > 0 ==> text.len() > 0 && rest[0] == text[0]
        }),
    decreases text.len(),
{
    if text.len() > 0 && is_space(text.last()) {
        lemma_end_tight(text.drop_last());
    }
}

/// A text begins with a prefix exactly if it is the prefix and something after it.
pub proof fn law_prefix(prefix: Seq<char>, rest: Seq<char>, text: Seq<char>)
    ensures
        has_prefix(prefix + rest, prefix),
        (prefix + rest).skip(prefix.len() as int) == rest,
        has_prefix(text, prefix) ==> text == prefix + text.skip(prefix.len() as int),
{
    assert((prefix + rest).take(prefix.len() as int) =~= prefix);
    assert((prefix + rest).skip(prefix.len() as int) =~= rest);
    if has_prefix(text, prefix) {
        assert(text =~= text.take(prefix.len() as int) + text.skip(prefix.len() as int));
    }
}

/// Trimming an element off an end takes away all of it there, and nothing else.
pub proof fn law_trimmed_end<T>(kept: Seq<T>, gone: Seq<T>, end: T)
    requires
        forall|i: int| 0 <= i < gone.len() ==> #[trigger] gone[i] == end,
        kept.len() == 0 || kept.last() != end,
    ensures
        trimmed_end(kept + gone, end) == kept,
    decreases gone.len(),
{
    if gone.len() == 0 {
        assert(kept + gone =~= kept);
    } else {
        assert(gone[gone.len() - 1] == end);
        assert((kept + gone).drop_last() =~= kept + gone.drop_last());
        assert forall|i: int| 0 <= i < gone.drop_last().len() implies #[trigger]
            gone.drop_last()[i] == end by {
            assert(gone[i] == end);
        }
        law_trimmed_end(kept, gone.drop_last(), end);
    }
}

/// Every line of a stream ends with a line feed, and has no other; what follows the last line has
/// none.
pub proof fn law_lines_end_with_line_feeds(stream: Seq<u8>, k: int, i: int)
    ensures
        0 <= k < lines(stream).len() ==> {
            let line = lines(stream)[k];
            &&& line.len() > 0
            &&& line.last() == 10
            &&& 0 <= i < line.len() - 1 ==> line[i] != 10
        },
        0 <= i < unfinished(stream).len() ==> unfinished(stream)[i] != 10,
    decreases stream.len(),
{
    lemma_position(stream, 10u8);
    match position(stream, 10u8) {
        Some(p) => {
            law_lines_end_with_line_feeds(stream.skip(p + 1), k - 1, i);
        },
        None => {},
    }
}

/// A line that says `said`, and ends with carriage returns, or none, and a line feed.
pub open spec fn is_line(line: Seq<u8>, said: Seq<u8>, ends: Seq<u8>) -> bool {
    &&& line == said + ends + seq![10u8]
    &&& forall|i: int| 0 <= i < ends.len() ==> #[trigger] ends[i] == 13
    &&& said.len() == 0 || said.last() != 13
}

/// What a line says stands before the carriage returns and the line feed that end it.
pub proof fn law_what_a_line_says(line: Seq<u8>, said: Seq<u8>, ends: Seq<u8>)
    requires
        is_line(line, said, ends),
    ensures
        bare(line) == said,
        line_end(line) == ends + seq![10u8],
{
    assert(line.drop_last() =~= said + ends);
    law_trimmed_end(said, ends, 13u8);
    assert(line_end(line) =~= ends + seq![10u8]);
}

/// The data that a line with the prefix `data: ` carries is what follows the prefix, without the
/// white space around it.
pub proof fn law_data_of_a_line(
    line: Seq<u8>,
    said: Seq<u8>,
    ends: Seq<u8>,
    a: Seq<char>,
    data: Seq<char>,
    b: Seq<char>,
)
    requires
        is_line(line, said, ends),
        utf8_lossy(said) == "data: "@ + (a + data + b),
        is_blank(a),
        is_blank(b),
        is_tight(data),
    ensures
        line_content(utf8_lossy(bare(line))) == data,
        data != "[DONE]"@ ==> line_data(line) == json_parse(data),
        data == "[DONE]"@ ==> line_data(line) is None,
{
    law_what_a_line_says(line, said, ends);
    law_prefix("data: "@, a + data + b, utf8_lossy(said));
    law_trimmed(a, data, b);
}

/// A line without the prefix carries nothing for the forwarder; for the collector its whole text,
/// without the white space around it, is data. A blank line carries nothing.
pub proof fn law_line_without_prefix(
    line: Seq<u8>,
    said: Seq<u8>,
    ends: Seq<u8>,
    a: Seq<char>,
    data: Seq<char>,
    b: Seq<char>,
)
    requires
        is_line(line, said, ends),
        utf8_lossy(said) == a + data + b,
        forall|rest: Seq<char>| #[trigger] ("data: "@ + rest) != utf8_lossy(said),
        is_blank(a),
        is_blank(b),
        data.len() == 0 || is_tight(data),
    ensures
        line_data(line) is None,
        line_content(utf8_lossy(bare(line))) == data,
{
    law_what_a_line_says(line, said, ends);
    law_trimmed(a, data, b);
    let text = utf8_lossy(said);
    if has_prefix(text, "data: "@) {
        law_prefix("data: "@, Seq::empty(), text);
        let rest = text.skip("data: "@.len() as int);
        assert("data: "@ + rest != text);
    }
}

/// Whether a chunk carries the text `text` in the delta of its first choice, and no message there.
pub open spec fn carries(chunk: Json, text: Seq<char>) -> bool {
    &&& chunk is Object
    &&& chunk->Object_0.contains_key("choices"@)
    &&& chunk->Object_0["choices"@] is Array
    &&& chunk->Object_0["choices"@]->Array_0.len() > 0
    &&& chunk->Object_0["choices"@]->Array_0[0] is Object
    &&& ({
        let choice = chunk->Object_0["choices"@]->Array_0[0]->Object_0;
        &&& !choice.contains_key("message"@)
        &&& choice.contains_key("delta"@)
        &&& choice["delta"@] is Object
        &&& choice["delta"@]->Object_0.contains_key("content"@)
        &&& choice["delta"@]->Object_0["content"@] == Json::Str(text)
    })
}

/// The text that a chunk carries is added to the content as it is, character for character.
pub proof fn law_text_is_added_as_it_is(before: Collected, chunk: Json, text: Seq<char>)
    requires
        carries(chunk, text),
    ensures
        absorbed(before, chunk).content == before.content + text,
        absorbed(before, chunk).done == before.done,
{
}

/// Where the first choice carries a text in its delta and one in its message, both are added, in
/// this order.
pub proof fn law_delta_and_message_are_added(
    before: Collected,
    map: Map<Seq<char>, Json>,
    choices: Seq<Json>,
    choice: Map<Seq<char>, Json>,
    delta: Map<Seq<char>, Json>,
    message: Map<Seq<char>, Json>,
    first: Seq<char>,
    second: Seq<char>,
)
    requires
        map.contains_key("choices"@),
        map["choices"@] == Json::Array(choices),
        choices.len() > 0,
        choices[0] == Json::Object(choice),
        choice.contains_key("message"@),
        choice["message"@] == Json::Object(message),
        message.contains_key("content"@),
        message["content"@] == Json::Str(second),
    ensures
        choice.contains_key("delta"@) && choice["delta"@] == Json::Object(delta)
            && delta.contains_key("content"@) && delta["content"@] == Json::Str(first) ==> absorbed(
            before,
            Json::Object(map),
        ).content == before.content + first + second,
        !choice.contains_key("delta"@) ==> absorbed(before, Json::Object(map)).content
            == before.content + second,
{
}

/// A chunk whose first choice carries no text leaves the content as it is: one that is no object,
/// has no choices, or whose first choice has neither a delta nor a message with a string as its
/// content.
pub proof fn law_chunk_without_text(before: Collected, chunk: Json)
    requires
        ({
            ||| !(chunk is Object)
            ||| !chunk->Object_0.contains_key("choices"@)
            ||| !(chunk->Object_0["choices"@] is Array)
            ||| chunk->Object_0["choices"@]->Array_0.len() == 0
            ||| !(chunk->Object_0["choices"@]->Array_0[0] is Object)
            ||| ({
                let choice = chunk->Object_0["choices"@]->Array_0[0]->Object_0;
                &&& !choice.contains_key("delta"@) || !(choice["delta"@] is Object)
                    || !choice["delta"@]->Object_0.contains_key("content"@)
                    || !(choice["delta"@]->Object_0["content"@] is Str)
                &&& !choice.contains_key("message"@) || !(choice["message"@] is Object)
                    || !choice["message"@]->Object_0.contains_key("content"@)
                    || !(choice["message"@]->Object_0["content"@] is Str)
            })
        }),
    ensures
        absorbed(before, chunk).content == before.content,
        absorbed(before, chunk).done == before.done,
{
}

/// The model and the usage that a chunk gives replace those before; what it does not give stays.
pub proof fn law_model_and_usage_of_a_chunk(before: Collected, chunk: Json)
    ensures
        chunk is Object && chunk->Object_0.contains_key("model"@)
            && chunk->Object_0["model"@] is Str ==> absorbed(before, chunk).model
            == chunk->Object_0["model"@]->Str_0,
        !(chunk is Object) || !chunk->Object_0.contains_key("model"@)
            || !(chunk->Object_0["model"@] is Str) ==> absorbed(before, chunk).model
            == before.model,
        chunk is Object && chunk->Object_0.contains_key("usage"@)
            && !(chunk->Object_0["usage"@] is Null) ==> absorbed(before, chunk).usage
            == chunk->Object_0["usage"@],
        !(chunk is Object) || !chunk->Object_0.contains_key("usage"@)
            || chunk->Object_0["usage"@] is Null ==> absorbed(before, chunk).usage
            == before.usage,
{
}

/// A line with the prefix `data: `, and after it the data `data`.
pub open spec fn is_data_line(line: Seq<u8>, data: Seq<char>) -> bool {
    exists|said: Seq<u8>, ends: Seq<u8>| #[trigger]
        is_line(line, said, ends) && utf8_lossy(said) == "data: "@ + data && said.len() > 0
}

proof fn lemma_data_line(line: Seq<u8>, data: Seq<char>)
    requires
        is_data_line(line, data),
        is_tight(data),
    ensures
        bare(line).len() > 0,
        line_content(utf8_lossy(bare(line))) == data,
        data != "[DONE]"@ ==> line_data(line) == json_parse(data),
        data == "[DONE]"@ ==> line_data(line) is None,
{
    let (said, ends) = choose|said: Seq<u8>, ends: Seq<u8>| #[trigger]
        is_line(line, said, ends) && utf8_lossy(said) == "data: "@ + data && said.len() > 0;
    law_what_a_line_says(line, said, ends);
    assert(Seq::<char>::empty() + data + Seq::<char>::empty() =~= data);
    law_data_of_a_line(line, said, ends, Seq::empty(), data, Seq::empty());
}

/// A text that is put together of texts, one after the other.
pub open spec fn put_together(texts: Seq<Seq<char>>) -> Seq<char>
    decreases texts.len(),
{
    if texts.len() == 0 {
        Seq::empty()
    } else {
        put_together(texts.drop_last()) + texts.last()
    }
}

/// The content of a stream is the texts of its chunks, one after the other, character for
/// character.
pub proof fn law_content_of_a_stream(
    before: Collected,
    more: Seq<Seq<u8>>,
    datas: Seq<Seq<char>>,
    chunks: Seq<Json>,
    texts: Seq<Seq<char>>,
)
    requires
        !before.done,
        datas.len() == more.len(),
        chunks.len() == more.len(),
        texts.len() == more.len(),
        forall|i: int|
            #![trigger more[i]]
            0 <= i < more.len() ==> is_data_line(more[i], datas[i]) && is_tight(datas[i])
                && datas[i] != "[DONE]"@ && json_parse(datas[i]) == Some(chunks[i]) && carries(
                chunks[i],
                texts[i],
            ),
    ensures
        collect_all(before, more).content == before.content + put_together(texts),
        !collect_all(before, more).done,
    decreases more.len(),
{
    if more.len() == 0 {
        assert(before.content + put_together(texts) =~= before.content);
    } else {
        let m = more.drop_last();
        let d = datas.drop_last();
        let c = chunks.drop_last();
        let t = texts.drop_last();
        assert forall|i: int| #![trigger m[i]] 0 <= i < m.len() implies is_data_line(m[i], d[i])
            && is_tight(d[i]) && d[i] != "[DONE]"@ && json_parse(d[i]) == Some(c[i]) && carries(
            c[i],
            t[i],
        ) by {
            assert(more[i] == m[i]);
        }
        law_content_of_a_stream(before, m, d, c, t);
        let n = more.len() - 1;
        assert(is_data_line(more[n], datas[n]));
        lemma_data_line(more[n], datas[n]);
        law_text_is_added_as_it_is(collect_all(before, m), chunks[n], texts[n]);
        assert(collect_all(before, more).content =~= before.content + put_together(texts));
    }
}

/// A line whose data is `[DONE]` ends the answer, and changes nothing else of it.
pub proof fn law_done_ends_the_answer(before: Collected, line: Seq<u8>)
    requires
        is_data_line(line, "[DONE]"@),
    ensures
        collect_one(before, line).done,
        collect_one(before, line).content == before.content,
        collect_one(before, line).model == before.model,
        collect_one(before, line).usage == before.usage,
{
    reveal_strlit("[DONE]");
    assert("[DONE]"@[0] == '[' && "[DONE]"@.last() == ']');
    lemma_data_line(line, "[DONE]"@);
}

/// The answer that is collected from a stream whose chunks carry texts up to the end: these texts,
/// one after the other, character for character, and nothing of what follows the end.
pub proof fn law_answer_of_a_stream(
    before: Collected,
    stream: Seq<u8>,
    more: Seq<Seq<u8>>,
    end: Seq<u8>,
    after: Seq<Seq<u8>>,
    datas: Seq<Seq<char>>,
    chunks: Seq<Json>,
    texts: Seq<Seq<char>>,
)
    requires
        !before.done,
        lines(stream) == more + seq![end] + after,
        is_data_line(end, "[DONE]"@),
        datas.len() == more.len(),
        chunks.len() == more.len(),
        texts.len() == more.len(),
        forall|i: int|
            #![trigger more[i]]
            0 <= i < more.len() ==> is_data_line(more[i], datas[i]) && is_tight(datas[i])
                && datas[i] != "[DONE]"@ && json_parse(datas[i]) == Some(chunks[i]) && carries(
                chunks[i],
                texts[i],
            ),
    ensures
        collect_all(before, lines(stream)).content == before.content + put_together(texts),
        collect_all(before, lines(stream)).done,
{
    law_content_of_a_stream(before, more, datas, chunks, texts);
    let ended = more + seq![end];
    assert(ended.drop_last() =~= more);
    law_done_ends_the_answer(collect_all(before, more), end);
    lemma_collect_concat(before, ended, after);
    law_nothing_after_done(collect_all(before, ended), after);
}

/// A line that carries a chunk, with the prefix or without, has the chunk taken in, unless the
/// answer has ended before.
pub proof fn law_collected_chunk(
    before: Collected,
    line: Seq<u8>,
    said: Seq<u8>,
    ends: Seq<u8>,
    a: Seq<char>,
    data: Seq<char>,
    b: Seq<char>,
    chunk: Json,
)
    requires
        is_line(line, said, ends),
        said.len() > 0,
        utf8_lossy(said) == "data: "@ + (a + data + b) || utf8_lossy(said) == a + data + b
            && utf8_lossy(said)[0] != 'd',
        is_blank(a),
        is_blank(b),
        is_tight(data),
        data != "[DONE]"@,
        json_parse(data) == Some(chunk),
    ensures
        before.done ==> collect_one(before, line) == before,
        !before.done ==> collect_one(before, line) == absorbed(before, chunk),
{
    law_what_a_line_says(line, said, ends);
    let text = utf8_lossy(said);
    if text == "data: "@ + (a + data + b) {
        law_data_of_a_line(line, said, ends, a, data, b);
    } else {
        reveal_strlit("data: ");
        assert forall|rest: Seq<char>| #[trigger] ("data: "@ + rest) != text by {
            assert(("data: "@ + rest)[0] == 'd');
        }
        law_line_without_prefix(line, said, ends, a, data, b);
    }
}

/// A line with the prefix and nothing but white space after it carries nothing.
pub proof fn law_line_with_nothing_but_the_prefix(
    line: Seq<u8>,
    said: Seq<u8>,
    ends: Seq<u8>,
    blank: Seq<char>,
)
    requires
        is_line(line, said, ends),
        utf8_lossy(said) == "data: "@ + blank,
        is_blank(blank),
    ensures
        line_data(line) is None,
        line_content(utf8_lossy(bare(line))).len() == 0,
{
    law_what_a_line_says(line, said, ends);
    law_prefix("data: "@, blank, utf8_lossy(said));
    law_trimmed(blank, Seq::empty(), Seq::empty());
    assert(blank + Seq::<char>::empty() + Seq::<char>::empty() =~= blank);
}

/// A blank line, and a line whose data is no JSON, change nothing.
pub proof fn law_line_without_data(before: Collected, line: Seq<u8>, ends: Seq<u8>, data: Seq<char>)
    ensures
        is_line(line, Seq::empty(), ends) ==> collect_one(before, line) == before,
        is_data_line(line, data) && is_tight(data) && data != "[DONE]"@ && json_parse(data) is None
            ==> collect_one(before, line) == before,
{
    if is_line(line, Seq::empty(), ends) {
        law_what_a_line_says(line, Seq::empty(), ends);
    }
    if is_data_line(line, data) && is_tight(data) {
        lemma_data_line(line, data);
    }
}

/// The position of a tool call is the integer in its field `index`, cut to 32 bits; 0 where there
/// is none.
pub proof fn law_position_of_a_call(
    call: Json,
    map: Map<Seq<char>, Json>,
    n: serde_json::Number,
    i: u64,
)
    requires
        !(call is Object),
    ensures
        map.contains_key("index"@) && map["index"@] == Json::Number(n) && number_u64(n) == Some(i)
            ==> call_index(Json::Object(map)) == i % 0x1_0000_0000,
        map.contains_key("index"@) && map["index"@] == Json::Number(n) && number_u64(n) is None
            ==> call_index(Json::Object(map)) == 0,
        map.contains_key("index"@) && !(map["index"@] is Number) ==> call_index(Json::Object(map))
            == 0,
        !map.contains_key("index"@) ==> call_index(Json::Object(map)) == 0,
        call_index(call) == 0,
{
    assert(i as u32 == i % 0x1_0000_0000) by (bit_vector);
}

/// The names on record are those of the table.
pub proof fn law_names_on_record(names: ToolNames, index: u32)
    ensures
        recorded(names).contains_key(index) == names@.contains_key(index),
        names@.contains_key(index) ==> recorded(names)[index] == names@[index]@,
{
}

/// Whether a tool call is an object with a function, an object, whose name is the string `name`.
pub open spec fn is_named(call: Json, name: Seq<char>) -> bool {
    &&& call is Object
    &&& call->Object_0.contains_key("function"@)
    &&& call->Object_0["function"@] is Object
    &&& call->Object_0["function"@]->Object_0.contains_key("name"@)
    &&& call->Object_0["function"@]->Object_0["name"@] == Json::Str(name)
}

/// What becomes of one tool call. A name that is not empty goes on record where there is none, and
/// the call stays as it is. An empty name is taken out where there is one on record, and nothing
/// else of the call is touched. Any other call stays as it is, and nothing goes on record.
pub proof fn law_one_call(call: Json, names: Map<u32, Seq<char>>, name: Seq<char>)
    ensures
        ({
            let index = call_index(call);
            let mended = mended_call(call, names);
            &&& is_named(call, name) && name.len() > 0 ==> {
                &&& mended.value == call
                &&& !mended.changed
                &&& names.contains_key(index) ==> mended.names == names
                &&& !names.contains_key(index) ==> mended.names == names.insert(index, name)
            }
            &&& is_named(call, name) && name.len() == 0 ==> {
                &&& mended.names == names
                &&& !names.contains_key(index) ==> mended.value == call && !mended.changed
                &&& names.contains_key(index) ==> mended.changed && mended.value == Json::Object(
                    call->Object_0.insert(
                        "function"@,
                        Json::Object(call->Object_0["function"@]->Object_0.remove("name"@)),
                    ),
                )
            }
        }),
        (forall|any: Seq<char>| !#[trigger] is_named(call, any)) ==> {
            &&& mended_call(call, names).value == call
            &&& mended_call(call, names).names == names
            &&& !mended_call(call, names).changed
        },
{
    if call_name(call) is Some {
        assert(is_named(call, call_name(call)->0));
    }
}

/// Tool calls are mended one after the other: some and then more of them, with the names that are
/// on record then, are mended as they are together.
pub proof fn law_calls_one_after_the_other(
    a: Seq<Json>,
    b: Seq<Json>,
    call: Json,
    names: Map<u32, Seq<char>>,
)
    ensures
        ({
            let first = mended_calls(a, names);
            let second = mended_calls(b, first.names);
            let both = mended_calls(a + b, names);
            &&& both.value == first.value + second.value
            &&& both.names == second.names
            &&& both.changed == (first.changed || second.changed)
        }),
        mended_calls(seq![call], names).value == seq![mended_call(call, names).value],
        mended_calls(seq![call], names).names == mended_call(call, names).names,
        mended_calls(seq![call], names).changed == mended_call(call, names).changed,
    decreases b.len(),
{
    assert(seq![call].drop_last() =~= Seq::<Json>::empty());
    assert(mended_calls(Seq::empty(), names).value =~= Seq::<Json>::empty());
    assert(mended_calls(seq![call], names).value =~= seq![mended_call(call, names).value]);
    let first = mended_calls(a, names);
    if b.len() == 0 {
        assert(a + b =~= a);
        assert(first.value + Seq::<Json>::empty() =~= first.value);
    } else {
        assert((a + b).drop_last() =~= a + b.drop_last());
        law_calls_one_after_the_other(a, b.drop_last(), call, names);
        assert(mended_calls(a + b, names).value =~= first.value + mended_calls(
            b,
            first.names,
        ).value);
    }
}

/// Choices are mended one after the other: some and then more of them, with the names that are on
/// record then, are mended as they are together.
pub proof fn law_choices_one_after_the_other(
    a: Seq<Json>,
    b: Seq<Json>,
    choice: Json,
    names: Map<u32, Seq<char>>,
)
    ensures
        ({
            let first = mended_choices(a, names);
            let second = mended_choices(b, first.names);
            let both = mended_choices(a + b, names);
            &&& both.value == first.value + second.value
            &&& both.names == second.names
            &&& both.changed == (first.changed || second.changed)
        }),
        mended_choices(seq![choice], names).value == seq![mended_choice(choice, names).value],
        mended_choices(seq![choice], names).names == mended_choice(choice, names).names,
        mended_choices(seq![choice], names).changed == mended_choice(choice, names).changed,
    decreases b.len(),
{
    assert(seq![choice].drop_last() =~= Seq::<Json>::empty());
    assert(mended_choices(Seq::empty(), names).value =~= Seq::<Json>::empty());
    assert(mended_choices(seq![choice], names).value =~= seq![mended_choice(choice, names).value]);
    let first = mended_choices(a, names);
    if b.len() == 0 {
        assert(a + b =~= a);
        assert(first.value + Seq::<Json>::empty() =~= first.value);
    } else {
        assert((a + b).drop_last() =~= a + b.drop_last());
        law_choices_one_after_the_other(a, b.drop_last(), choice, names);
        assert(mended_choices(a + b, names).value =~= first.value + mended_choices(
            b,
            first.names,
        ).value);
    }
}

/// A choice with tool calls in its delta is mended in these, and in nothing else; a chunk with
/// choices in those, and in nothing else. Where there are none, nothing is.
pub proof fn law_what_is_mended(
    map: Map<Seq<char>, Json>,
    delta: Map<Seq<char>, Json>,
    items: Seq<Json>,
    names: Map<u32, Seq<char>>,
)
    ensures
        map.contains_key("delta"@) && map["delta"@] == Json::Object(delta) && delta.contains_key(
            "tool_calls"@,
        ) && delta["tool_calls"@] == Json::Array(items) ==> {
            let mended = mended_choice(Json::Object(map), names);
            let calls = mended_calls(items, names);
            &&& mended.value == Json::Object(
                map.insert(
                    "delta"@,
                    Json::Object(delta.insert("tool_calls"@, Json::Array(calls.value))),
                ),
            )
            &&& mended.names == calls.names
            &&& mended.changed == calls.changed
        },
        !map.contains_key("delta"@) || map["delta"@] == Json::Object(delta) && (
        !delta.contains_key("tool_calls"@) || !(delta["tool_calls"@] is Array)) ==> {
            let mended = mended_choice(Json::Object(map), names);
            &&& mended.value == Json::Object(map)
            &&& mended.names == names
            &&& !mended.changed
        },
        map.contains_key("choices"@) && map["choices"@] == Json::Array(items) ==> {
            let mended = mended_chunk(Json::Object(map), names);
            let choices = mended_choices(items, names);
            &&& mended.value == Json::Object(map.insert("choices"@, Json::Array(choices.value)))
            &&& mended.names == choices.names
            &&& mended.changed == choices.changed
        },
        !map.contains_key("choices"@) || !(map["choices"@] is Array) ==> {
            let mended = mended_chunk(Json::Object(map), names);
            &&& mended.value == Json::Object(map)
            &&& mended.names == names
            &&& !mended.changed
        },
{
}

/// Every field of a chunk but `choices` is passed on as it came, also where something was mended;
/// and no field is added. A chunk that is no object, or whose choices are no array, stays as it is.
pub proof fn law_fields_of_a_mended_chunk(
    map: Map<Seq<char>, Json>,
    names: Map<u32, Seq<char>>,
    name: Seq<char>,
    other: Json,
)
    requires
        !(other is Object),
    ensures
        mended_chunk(other, names).value == other,
        mended_chunk(Json::Object(map), names).value is Object,
        mended_chunk(Json::Object(map), names).value->Object_0.contains_key(name)
            == map.contains_key(name),
        map.contains_key(name) && (name != "choices"@ || !(map[name] is Array)) ==> mended_chunk(
            Json::Object(map),
            names,
        ).value->Object_0[name] == map[name],
{
}

/// The choice at `c` of a mended chunk.
pub open spec fn mended_choice_at(
    map: Map<Seq<char>, Json>,
    names: Map<u32, Seq<char>>,
    c: int,
) -> Json {
    mended_chunk(Json::Object(map), names).value->Object_0["choices"@]->Array_0[c]
}

/// There are as many choices as came. Every field of a choice but `delta` is passed on as it came;
/// no field is added; a choice that is no object stays as it is.
pub proof fn law_fields_of_mended_choices(
    map: Map<Seq<char>, Json>,
    names: Map<u32, Seq<char>>,
    choices: Seq<Json>,
    c: int,
    name: Seq<char>,
)
    requires
        map.contains_key("choices"@),
        map["choices"@] == Json::Array(choices),
        0 <= c < choices.len(),
    ensures
        mended_chunk(Json::Object(map), names).value->Object_0["choices"@] is Array,
        mended_chunk(Json::Object(map), names).value->Object_0["choices"@]->Array_0.len()
            == choices.len(),
        !(choices[c] is Object) ==> mended_choice_at(map, names, c) == choices[c],
        choices[c] is Object ==> {
            let before = choices[c]->Object_0;
            let after = mended_choice_at(map, names, c)->Object_0;
            &&& mended_choice_at(map, names, c) is Object
            &&& after.contains_key(name) == before.contains_key(name)
            &&& before.contains_key(name) && (name != "delta"@ || !(before[name] is Object))
                ==> after[name] == before[name]
        },
{
    lemma_each_choice(choices, names, c);
}

/// Every field of a delta but `tool_calls` is passed on as it came; no field is added.
pub proof fn law_fields_of_mended_deltas(
    map: Map<Seq<char>, Json>,
    names: Map<u32, Seq<char>>,
    choices: Seq<Json>,
    c: int,
    name: Seq<char>,
)
    requires
        map.contains_key("choices"@),
        map["choices"@] == Json::Array(choices),
        0 <= c < choices.len(),
        choices[c] is Object,
        choices[c]->Object_0.contains_key("delta"@),
        choices[c]->Object_0["delta"@] is Object,
    ensures
        ({
            let before = choices[c]->Object_0["delta"@]->Object_0;
            let delta = mended_choice_at(map, names, c)->Object_0["delta"@];
            &&& delta is Object
            &&& delta->Object_0.contains_key(name) == before.contains_key(name)
            &&& before.contains_key(name) && (name != "tool_calls"@ || !(before[name] is Array))
                ==> delta->Object_0[name] == before[name]
        }),
{
    lemma_each_choice(choices, names, c);
}

/// Whether tool call `after` is tool call `before`, or the same without an empty name.
pub open spec fn same_but_for_empty_name(before: Json, after: Json) -> bool {
    ||| after == before
    ||| is_named(before, Seq::empty()) && after == Json::Object(
        before->Object_0.insert(
            "function"@,
            Json::Object(before->Object_0["function"@]->Object_0.remove("name"@)),
        ),
    )
}

/// There are as many tool calls as came, and each is passed on as it came, or without an empty
/// name. The empty name is gone where there was a name on record for its position, and still there
/// where there is none by the end of the chunk.
pub proof fn law_mended_tool_calls(
    map: Map<Seq<char>, Json>,
    names: Map<u32, Seq<char>>,
    choices: Seq<Json>,
    c: int,
    calls: Seq<Json>,
    k: int,
)
    requires
        map.contains_key("choices"@),
        map["choices"@] == Json::Array(choices),
        0 <= c < choices.len(),
        choices[c] is Object,
        choices[c]->Object_0.contains_key("delta"@),
        choices[c]->Object_0["delta"@] is Object,
        choices[c]->Object_0["delta"@]->Object_0.contains_key("tool_calls"@),
        choices[c]->Object_0["delta"@]->Object_0["tool_calls"@] == Json::Array(calls),
        0 <= k < calls.len(),
    ensures
        ({
            let delta = mended_choice_at(map, names, c)->Object_0["delta"@]->Object_0;
            let after = delta["tool_calls"@]->Array_0;
            let known = mended_chunk(Json::Object(map), names).names;
            &&& delta["tool_calls"@] is Array
            &&& after.len() == calls.len()
            &&& same_but_for_empty_name(calls[k], after[k])
            &&& names.contains_key(call_index(calls[k])) ==> !is_named(after[k], Seq::empty())
            &&& !known.contains_key(call_index(calls[k])) ==> after[k] == calls[k]
        }),
{
    let index = call_index(calls[k]);
    let at_choice = mended_choices(choices.take(c), names).names;
    let at_call = mended_calls(calls.take(k), at_choice).names;
    lemma_each_choice(choices, names, c);
    lemma_each_call(calls, at_choice, k);
    if names.contains_key(index) {
        lemma_choices_keep(choices.take(c), names, index);
        lemma_calls_keep(calls.take(k), at_choice, index);
    }
    if at_call.contains_key(index) {
        lemma_known_at_the_end(choices, names, c, calls, k);
    }
    match call_name(calls[k]) {
        Some(name) => {
            if name.len() == 0 {
                assert(name =~= Seq::<char>::empty());
            }
        },
        None => {},
    }
}

proof fn lemma_known_after_calls(calls: Seq<Json>, names: Map<u32, Seq<char>>, k: int, index: u32)
    requires
        0 <= k <= calls.len(),
        mended_calls(calls.take(k), names).names.contains_key(index),
    ensures
        mended_calls(calls, names).names.contains_key(index),
    decreases calls.len() - k,
{
    if k < calls.len() {
        assert(calls.take(k + 1).drop_last() =~= calls.take(k));
        lemma_known_after_calls(calls, names, k + 1, index);
    } else {
        assert(calls.take(k) =~= calls);
    }
}

proof fn lemma_known_after_choices(
    choices: Seq<Json>,
    names: Map<u32, Seq<char>>,
    c: int,
    index: u32,
)
    requires
        0 <= c <= choices.len(),
        mended_choices(choices.take(c), names).names.contains_key(index),
    ensures
        mended_choices(choices, names).names.contains_key(index),
    decreases choices.len() - c,
{
    if c < choices.len() {
        assert(choices.take(c + 1).drop_last() =~= choices.take(c));
        let known = mended_choices(choices.take(c), names).names;
        if let Some(calls) = delta_calls(choices[c]) {
            lemma_calls_keep(calls, known, index);
        }
        lemma_known_after_choices(choices, names, c + 1, index);
    } else {
        assert(choices.take(c) =~= choices);
    }
}

proof fn lemma_known_at_the_end(
    choices: Seq<Json>,
    names: Map<u32, Seq<char>>,
    c: int,
    calls: Seq<Json>,
    k: int,
)
    requires
        0 <= c < choices.len(),
        delta_calls(choices[c]) == Some(calls),
        0 <= k < calls.len(),
        mended_calls(
            calls.take(k),
            mended_choices(choices.take(c), names).names,
        ).names.contains_key(call_index(calls[k])),
    ensures
        mended_choices(choices, names).names.contains_key(call_index(calls[k])),
{
    let index = call_index(calls[k]);
    let known = mended_choices(choices.take(c), names).names;
    lemma_known_after_calls(calls, known, k, index);
    assert(choices.take(c + 1).drop_last() =~= choices.take(c));
    assert(choices.take(c + 1).last() == choices[c]);
    lemma_known_after_choices(choices, names, c + 1, index);
}

/// Whether a tool call at the position `index` among the calls bears the name `name`.
pub open spec fn is_given(calls: Seq<Json>, index: u32, name: Seq<char>) -> bool {
    exists|k: int|
        0 <= k < calls.len() && call_index(calls[k]) == index && #[trigger] is_named(
            calls[k],
            name,
        )
}

/// A name that comes on record was given by a tool call at its position, and is not empty.
pub proof fn law_recorded_name_was_given(calls: Seq<Json>, names: Map<u32, Seq<char>>, index: u32)
    requires
        mended_calls(calls, names).names.contains_key(index),
    ensures
        names.contains_key(index) ==> mended_calls(calls, names).names[index] == names[index],
        !names.contains_key(index) ==> mended_calls(calls, names).names[index].len() > 0
            && is_given(calls, index, mended_calls(calls, names).names[index]),
    decreases calls.len(),
{
    if names.contains_key(index) {
        lemma_calls_keep(calls, names, index);
    } else if calls.len() > 0 {
        let rest = calls.drop_last();
        let before = mended_calls(rest, names).names;
        let last = calls.len() - 1;
        if before.contains_key(index) {
            law_recorded_name_was_given(rest, names, index);
            let name = before[index];
            let k = choose|k: int|
                0 <= k < rest.len() && call_index(rest[k]) == index && #[trigger] is_named(
                    rest[k],
                    name,
                );
            assert(is_named(calls[k], name));
        } else {
            let name = call_name(calls[last])->0;
            assert(is_named(calls[last], name));
        }
    }
}

/// A chunk counts as changed exactly if it is passed on otherwise than it came.
pub proof fn law_changed_means_changed(chunk: Json, names: Map<u32, Seq<char>>)
    ensures
        mended_chunk(chunk, names).changed <==> mended_chunk(chunk, names).value != chunk,
{
    if !mended_chunk(chunk, names).changed {
        law_unchanged_means_unchanged(chunk, names);
    } else {
        let choices = chunk.field("choices"@)->0->Array_0;
        lemma_changed_choices(choices, names);
        let map = chunk->Object_0;
        let value = mended_chunk(chunk, names).value;
        assert(value->Object_0["choices"@] != map["choices"@]);
    }
}

proof fn lemma_changed_calls(calls: Seq<Json>, names: Map<u32, Seq<char>>)
    requires
        mended_calls(calls, names).changed,
    ensures
        mended_calls(calls, names).value != calls,
    decreases calls.len(),
{
    let rest = calls.drop_last();
    let before = mended_calls(rest, names);
    let value = mended_calls(calls, names).value;
    assert(calls =~= rest.push(calls.last()));
    if before.changed {
        lemma_changed_calls(rest, names);
        if value == calls {
            assert(value.drop_last() =~= before.value);
        }
    } else {
        let call = calls.last();
        let after = mended_call(call, before.names).value;
        assert(after->Object_0["function"@] != call->Object_0["function"@]) by {
            let f = call->Object_0["function"@]->Object_0;
            assert(f.contains_key("name"@) && !f.remove("name"@).contains_key("name"@));
        }
        assert(value.last() == after);
    }
}

proof fn lemma_changed_choices(choices: Seq<Json>, names: Map<u32, Seq<char>>)
    requires
        mended_choices(choices, names).changed,
    ensures
        mended_choices(choices, names).value != choices,
    decreases choices.len(),
{
    let rest = choices.drop_last();
    let before = mended_choices(rest, names);
    let value = mended_choices(choices, names).value;
    assert(choices =~= rest.push(choices.last()));
    if before.changed {
        lemma_changed_choices(rest, names);
        if value == choices {
            assert(value.drop_last() =~= before.value);
        }
    } else {
        let choice = choices.last();
        let calls = delta_calls(choice)->0;
        lemma_changed_calls(calls, before.names);
        let after = mended_choice(choice, before.names).value;
        assert(after->Object_0["delta"@]->Object_0["tool_calls"@] == Json::Array(
            mended_calls(calls, before.names).value,
        ));
        assert(choice->Object_0["delta"@]->Object_0["tool_calls"@] == Json::Array(calls));
        assert(value.last() == after);
    }
}

/// What is forwarded for a line that carries a chunk: the line as it came where names are not to be
/// mended, or nothing in the chunk had to be; else the mended chunk, after the prefix `data: `,
/// with the line's own end.
pub proof fn law_forwarded_chunk(
    before: Forwarded,
    line: Seq<u8>,
    said: Seq<u8>,
    ends: Seq<u8>,
    data: Seq<char>,
    chunk: Json,
    fix: bool,
)
    requires
        is_line(line, said, ends),
        said.len() > 0,
        utf8_lossy(said) == "data: "@ + data,
        is_tight(data),
        data != "[DONE]"@,
        json_parse(data) == Some(chunk),
    ensures
        ({
            let after = forward_one(before, line, fix);
            let mended = mended_chunk(chunk, before.names);
            &&& after.sent.len() == before.sent.len() + 1
            &&& after.sent.drop_last() == before.sent
            &&& !fix ==> after.sent.last() == line && after.names == before.names
            &&& fix ==> after.names == mended.names
            &&& fix && mended.value == chunk ==> after.sent.last() == line
            &&& fix && mended.value != chunk ==> after.sent.last() == encode_utf8(
                "data: "@ + json_text(mended.value),
            ) + ends + seq![10u8]
        }),
{
    assert(is_data_line(line, data));
    lemma_data_line(line, data);
    law_what_a_line_says(line, said, ends);
    law_changed_means_changed(chunk, before.names);
    let after = forward_one(before, line, fix);
    assert(after.sent.drop_last() =~= before.sent);
    let mended = mended_chunk(chunk, before.names);
    if fix && mended.value != chunk {
        assert(after.sent.last() =~= encode_utf8("data: "@ + json_text(mended.value)) + ends
            + seq![10u8]);
    }
}

/// A line that carries no chunk is forwarded as it came: a blank one, one without the prefix, the
/// end, and one whose data is no JSON. No name goes on record.
pub proof fn law_forwarded_other_line(before: Forwarded, line: Seq<u8>, fix: bool)
    requires
        line_data(line) is None,
    ensures
        forward_one(before, line, fix).sent == before.sent.push(line),
        forward_one(before, line, fix).names == before.names,
{
}

/// Where names are not to be mended, every line is forwarded as it came.
pub proof fn law_nothing_is_mended_unasked(before: Forwarded, more: Seq<Seq<u8>>)
    ensures
        forward_all(before, more, false).sent == before.sent + more,
        forward_all(before, more, false).names == before.names,
    decreases more.len(),
{
    if more.len() > 0 {
        law_nothing_is_mended_unasked(before, more.drop_last());
        assert(more =~= more.drop_last().push(more.last()));
    }
    assert(forward_all(before, more, false).sent =~= before.sent + more);
}

/// Lines are taken in one after the other, by the forwarder and by the collector: some and then one
/// more. There are as many lines sent as came.
pub proof fn law_line_by_line(
    sent: Forwarded,
    collected: Collected,
    more: Seq<Seq<u8>>,
    line: Seq<u8>,
    fix: bool,
)
    ensures
        forward_all(sent, Seq::empty(), fix) == sent,
        forward_all(sent, more.push(line), fix) == forward_one(
            forward_all(sent, more, fix),
            line,
            fix,
        ),
        forward_all(sent, more, fix).sent.len() == sent.sent.len() + more.len(),
        collect_all(collected, Seq::empty()) == collected,
        collect_all(collected, more.push(line)) == collect_one(collect_all(collected, more), line),
    decreases more.len(),
{
    assert(more.push(line).drop_last() =~= more);
    if more.len() > 0 {
        law_line_by_line(sent, collected, more.drop_last(), line, fix);
    }
}

/// After lines of which the last says something an event is open; after lines of which the last is
/// blank none is.
pub proof fn law_when_an_event_is_open(
    before: bool,
    more: Seq<Seq<u8>>,
    said: Seq<u8>,
    ends: Seq<u8>,
)
    ensures
        more.len() == 0 ==> open_after(before, more) == before,
        more.len() > 0 && is_line(more.last(), said, ends) ==> open_after(before, more) == (
        said.len() > 0),
{
    if more.len() > 0 && is_line(more.last(), said, ends) {
        law_what_a_line_says(more.last(), said, ends);
    }
}

/// What is sent when a stream has ended: nothing, if it ended well with a finished line; the
/// unfinished line, without the white space around it, and a blank line; and before that, if it
/// broke off, the blank line that an open event is short of, the report, and the end.
pub proof fn law_what_is_sent_at_the_end(
    open: bool,
    a: Seq<char>,
    rest: Seq<char>,
    b: Seq<char>,
    error: Seq<char>,
)
    requires
        is_blank(a),
        is_blank(b),
        rest.len() == 0 || is_tight(rest),
    ensures
        ({
            let last = if rest.len() == 0 {
                Seq::<Seq<char>>::empty()
            } else {
                seq![rest + "\n\n"@]
            };
            let report = "data: {\"error\": {\"message\": "@ + json_text(
                Json::Str("Stream error: "@ + error),
            ) + ", \"type\": "@ + json_text(Json::Str("stream_error"@)) + "}}\n\n"@;
            let broken = seq![report, "data: [DONE]\n\n"@];
            &&& ending_of(open, a + rest + b, None) == last
            &&& ending_of(false, a + rest + b, Some(error)) == broken + last
            &&& ending_of(true, a + rest + b, Some(error)) == seq!["\n"@] + broken + last
        }),
{
    law_trimmed(a, rest, b);
    let last = if rest.len() == 0 {
        Seq::<Seq<char>>::empty()
    } else {
        seq![rest + "\n\n"@]
    };
    let report = "data: {\"error\": {\"message\": "@ + json_text(
        Json::Str("Stream error: "@ + error),
    ) + ", \"type\": "@ + json_text(Json::Str("stream_error"@)) + "}}\n\n"@;
    let broken = seq![report, "data: [DONE]\n\n"@];
    assert(ending_of(open, a + rest + b, None) =~= last);
    assert(ending_of(false, a + rest + b, Some(error)) =~= broken + last);
    assert(ending_of(true, a + rest + b, Some(error)) =~= seq!["\n"@] + broken + last);
}

} // verus!
