use std::collections::HashMap;

use stream_converter::collect::{extract_openai_content, StreamCollector};
use stream_converter::forward::{forward_parsed, StreamForwarder};
use stream_converter::interop::{from_text, to_text};
use stream_converter::json::JsonValue;
use stream_converter::lines::{bare_len, line_text, LineBuffer};
use stream_converter::tools::fix_tool_call_name_overwrite;

fn json(text: &str) -> JsonValue {
    from_text(text).unwrap()
}

#[test]
fn cuts_lines() {
    let mut buffer = LineBuffer::new();
    buffer.push(b"a\r\r\nb");
    assert_eq!(buffer.next_line(), Some(b"a\r\r\n".to_vec()));
    assert_eq!(buffer.next_line(), None);
    buffer.push(b"c\n\n");
    assert_eq!(buffer.next_line(), Some(b"bc\n".to_vec()));
    assert_eq!(buffer.next_line(), Some(b"\n".to_vec()));
    assert_eq!(buffer.next_line(), None);
    assert_eq!(buffer.pending_text(), "");
    buffer.push(b"d");
    assert_eq!(buffer.pending_text(), "d");
}

#[test]
fn bytes_that_are_no_text_are_read_as_replacement_characters() {
    assert_eq!(line_text(&[b'a', 0xff, b'\n']), "a\u{fffd}");
    assert_eq!(line_text("你\r\n".as_bytes()), "你");
    let mut forwarder = StreamForwarder::new(true);
    assert_eq!(forwarder.feed(&[b'a', 0xff, b'\n']), vec![vec![b'a', 0xff, b'\n']]);
}

#[test]
fn character_cut_by_the_network_stays_whole() {
    let whole = "data: {\"choices\":[{\"delta\":{\"content\":\"你好😀\"}}]}\n".as_bytes();
    for cut in 0..whole.len() {
        let mut collector = StreamCollector::new();
        collector.feed(&whole[..cut]);
        collector.feed(&whole[cut..]);
        assert_eq!(collector.into_answer().0, "你好😀");
        let mut forwarder = StreamForwarder::new(true);
        let mut sent = forwarder.feed(&whole[..cut]);
        sent.extend(forwarder.feed(&whole[cut..]));
        assert_eq!(sent.concat(), whole);
    }
}

#[test]
fn forwards_lines_as_they_are() {
    let mut forwarder = StreamForwarder::new(true);
    let sent = forwarder.feed(
        b"event: x\r\ndata: {\"b\": 1,  \"a\":2}\r\n\r\n: note\n\ndata: [DONE]\n\nrest ",
    );
    assert_eq!(
        sent.concat(),
        b"event: x\r\ndata: {\"b\": 1,  \"a\":2}\r\n\r\n: note\n\ndata: [DONE]\n\n"
    );
    assert_eq!(sent[0], b"event: x\r\n");
    assert_eq!(sent.len(), 7);
    assert_eq!(forwarder.ending(None), vec!["rest\n\n"]);
}

#[test]
fn blank_rest_is_not_forwarded() {
    let mut forwarder = StreamForwarder::new(true);
    assert!(forwarder.feed(b"  \t").is_empty());
    assert!(forwarder.ending(None).is_empty());
}

#[test]
fn forwarding_does_not_depend_on_pieces() {
    let whole: &[u8] = b"data: {\"choices\":[{\"delta\":{\"tool_calls\":[{\"index\":0,\"function\":{\"name\":\"f\"}}]}}]}\n\ndata: {\"choices\":[{\"delta\":{\"tool_calls\":[{\"index\":0,\"function\":{\"name\":\"\",\"arguments\":\"x\"}}]}}]}\n\n";
    let mut at_once = StreamForwarder::new(true);
    let expected = at_once.feed(whole);
    assert_eq!(expected.len(), 4);
    assert_eq!(
        expected[2],
        b"data: {\"choices\":[{\"delta\":{\"tool_calls\":[{\"function\":{\"arguments\":\"x\"},\"index\":0}]}}]}\n"
    );
    for cut in 0..whole.len() {
        let mut forwarder = StreamForwarder::new(true);
        let mut events = forwarder.feed(&whole[..cut]);
        events.extend(forwarder.feed(&whole[cut..]));
        assert_eq!(events, expected);
        assert!(forwarder.ending(None).is_empty());
    }
}

#[test]
fn nothing_is_mended_when_switched_off() {
    let first = b"data: {\"choices\":[{\"delta\":{\"tool_calls\":[{\"function\":{\"name\":\"f\"}}]}}]}\n";
    let second = b"data: {\"choices\":[{\"delta\":{\"tool_calls\":[{\"function\":{\"name\":\"\"}}]}}]}\n";
    let mut forwarder = StreamForwarder::new(false);
    forwarder.feed(first);
    let events = forwarder.feed(second);
    assert_eq!(events, vec![second.to_vec()]);
}

#[test]
fn parsed_line_is_rewritten_only_if_mended() {
    let mut names = HashMap::new();
    names.insert(0, "f".to_string());
    let chunk = json(r#"{"choices":[{"delta":{"tool_calls":[{"function":{"name":""}}]}}]}"#);
    let line = forward_parsed(b"as it was\r\n", Some(chunk), true, &mut names);
    assert_eq!(line, b"data: {\"choices\":[{\"delta\":{\"tool_calls\":[{\"function\":{}}]}}]}\r\n");
    assert_eq!(forward_parsed(b"as it was\n", Some(json("{}")), true, &mut names), b"as it was\n");
    assert_eq!(forward_parsed(b"as it was\n", None, true, &mut names), b"as it was\n");
}

#[test]
fn empty_name_goes_once_a_name_is_known() {
    let mut names = HashMap::new();
    let mut early = json(r#"{"choices":[{"delta":{"tool_calls":[{"index":1,"function":{"name":""}}]}}]}"#);
    let before = early.clone();
    assert!(!fix_tool_call_name_overwrite(&mut early, &mut names));
    assert_eq!(early, before);
    let mut named = json(r#"{"choices":[{"delta":{"tool_calls":[{"index":1,"function":{"name":"get"}}]}}]}"#);
    assert!(!fix_tool_call_name_overwrite(&mut named, &mut names));
    assert_eq!(names.get(&1), Some(&"get".to_string()));
    let mut later = json(r#"{"choices":[{"delta":{"tool_calls":[{"index":1,"id":"c","function":{"name":"","arguments":"{"}},{"index":2,"function":{"name":""}}]}}]}"#);
    assert!(fix_tool_call_name_overwrite(&mut later, &mut names));
    assert_eq!(
        to_text(&later),
        r#"{"choices":[{"delta":{"tool_calls":[{"function":{"arguments":"{"},"id":"c","index":1},{"function":{"name":""},"index":2}]}}]}"#
    );
}

#[test]
fn first_name_stays_on_record() {
    let mut names = HashMap::new();
    let mut a = json(r#"{"choices":[{"delta":{"tool_calls":[{"function":{"name":"first"}}]}}]}"#);
    let mut b = json(r#"{"choices":[{"delta":{"tool_calls":[{"function":{"name":"second"}}]}}]}"#);
    assert!(!fix_tool_call_name_overwrite(&mut a, &mut names));
    assert!(!fix_tool_call_name_overwrite(&mut b, &mut names));
    assert_eq!(names.get(&0), Some(&"first".to_string()));
    assert_eq!(
        to_text(&b),
        r#"{"choices":[{"delta":{"tool_calls":[{"function":{"name":"second"}}]}}]}"#
    );
}

#[test]
fn tool_call_index_is_cut_to_32_bits() {
    let mut names = HashMap::new();
    let mut a = json(
        r#"{"choices":[{"delta":{"tool_calls":[{"index":4294967297,"function":{"name":"f"}},{"index":-1,"function":{"name":"g"}}]}}]}"#,
    );
    assert!(!fix_tool_call_name_overwrite(&mut a, &mut names));
    assert_eq!(names.get(&1), Some(&"f".to_string()));
    assert_eq!(names.get(&0), Some(&"g".to_string()));
}

#[test]
fn other_chunks_are_left_alone() {
    let mut names = HashMap::new();
    names.insert(0, "f".to_string());
    for source in [
        "null",
        "[]",
        r#"{"choices":{}}"#,
        r#"{"choices":[{"delta":[]},{"message":{"tool_calls":[{"function":{"name":""}}]}}]}"#,
        r#"{"choices":[{"delta":{"tool_calls":[{"function":{"name":null}},{"function":""},7]}}]}"#,
    ] {
        let mut chunk = json(source);
        let before = chunk.clone();
        assert!(!fix_tool_call_name_overwrite(&mut chunk, &mut names));
        assert_eq!(chunk, before);
    }
}

#[test]
fn extracts_delta_content() {
    assert_eq!(
        extract_openai_content(&json(r#"{"choices":[{"delta":{"content":"hi"}},{"delta":{"content":"no"}}]}"#)),
        Some("hi")
    );
    assert_eq!(extract_openai_content(&json(r#"{"choices":[{"delta":{"content":null}}]}"#)), None);
    assert_eq!(extract_openai_content(&json(r#"{"choices":[]}"#)), None);
    assert_eq!(extract_openai_content(&json("3")), None);
}

#[test]
fn collects_an_answer() {
    let mut collector = StreamCollector::new();
    assert!(!collector.feed(b"data: {\"model\":\"m1\",\"choices\":[{\"delta\":{\"content\":\"Hel\"}}]}\n\nda"));
    assert!(!collector.feed(b"ta: {\"model\":\"m2\",\"choices\":[{\"delta\":{\"content\":\"lo\"},\"message\":{\"content\":\"!\"}}]}\n"));
    assert!(!collector.feed(b"{\"usage\":{\"total_tokens\":3}}\n{\"usage\":null}\nnot json\n"));
    assert!(collector.feed(b"data: [DONE]\ndata: {\"choices\":[{\"delta\":{\"content\":\"late\"}}]}\n"));
    let (content, model, usage) = collector.into_answer();
    assert_eq!(content, "Hello!");
    assert_eq!(model, "m2");
    assert_eq!(usage, json(r#"{"total_tokens":3}"#));
}

#[test]
fn collecting_does_not_depend_on_pieces() {
    let whole: &[u8] = b"data: {\"choices\":[{\"delta\":{\"content\":\"a\"}}]}\ndata: {\"choices\":[{\"delta\":{\"content\":\"b\"}}]}\n [DONE] \n";
    for cut in 0..whole.len() {
        let mut collector = StreamCollector::new();
        collector.feed(&whole[..cut]);
        assert!(collector.feed(&whole[cut..]));
        assert_eq!(collector.into_answer().0, "ab");
    }
}

#[test]
fn nothing_collected_of_an_empty_stream() {
    let mut collector = StreamCollector::new();
    assert!(!collector.feed(b""));
    let (content, model, usage) = collector.into_answer();
    assert_eq!((content.as_str(), model.as_str()), ("", ""));
    assert_eq!(usage, JsonValue::Null);
}

#[test]
fn chunk_can_be_absorbed_directly() {
    let mut collector = StreamCollector::new();
    collector.absorb(&json(r#"{"model":"m","choices":[{"message":{"content":"x"}}],"usage":{}}"#));
    collector.absorb(&json(r#"{"model":7,"choices":[{"delta":{"content":"y"}}]}"#));
    let (content, model, usage) = collector.into_answer();
    assert_eq!((content.as_str(), model.as_str()), ("xy", "m"));
    assert_eq!(usage, json("{}"));
}

#[test]
fn no_empty_name_after_a_name() {
    let mut forwarder = StreamForwarder::new(true);
    let named = b"data: {\"choices\":[{\"delta\":{\"tool_calls\":[{\"index\":3,\"function\":{\"name\":\"f\"}}]}}]}\n";
    let other = b"data: {\"choices\":[{\"delta\":{\"content\":\"x\"}}]}\n: ping\n";
    let empty = b"data: {\"choices\":[{},{\"delta\":{\"tool_calls\":[{\"index\":3,\"function\":{\"name\":\"\"}}]}}]}\n";
    assert_eq!(forwarder.feed(named).len(), 1);
    assert_eq!(forwarder.feed(other).len(), 2);
    for _ in 0..2 {
        assert_eq!(
            forwarder.feed(empty),
            vec![b"data: {\"choices\":[{},{\"delta\":{\"tool_calls\":[{\"function\":{},\"index\":3}]}}]}\n"]
        );
    }
}

#[test]
fn lines_and_their_ends() {
    assert_eq!(bare_len(b"a\r\r\n"), 1);
    assert_eq!(bare_len(b"\n"), 0);
    assert_eq!(bare_len(b""), 0);
}

#[test]
fn broken_stream_is_reported_in_order() {
    let report = "data: {\"error\": {\"message\": \"Stream error: e\", \"type\": \"stream_error\"}}\n\n";
    let end = "data: [DONE]\n\n";
    let mut forwarder = StreamForwarder::new(true);
    assert_eq!(forwarder.ending(Some("e")), vec![report, end]);
    forwarder.feed(b"data: 1\ndata: 2\npart");
    assert_eq!(forwarder.ending(Some("e")), vec!["\n", report, end, "part\n\n"]);
    assert_eq!(forwarder.ending(None), vec!["part\n\n"]);
    forwarder.feed(b"ial\r\n\r\n");
    assert_eq!(forwarder.ending(Some("e")), vec![report, end]);
}
