use stream_converter::cache::ResponseCache;
use stream_converter::chat::{
    answer, answer_with, auth_label, broken_stream, cache_stats, choose_model, classify_failure, completion,
    connect_error_message, error_event, error_json, failed_stream, force_stream, forwarded_auth,
    health, parse_request, read_error_message, read_request, refused_stream,
    upstream_error_message, UpstreamFailure,
};
use stream_converter::config::{Config, EnvVars};
use stream_converter::decimal::parse_decimal;
use stream_converter::exchange::{
    begin, begin_at, begin_parsed_at, conclude, conclude_at, configured_cache, Step,
};
use stream_converter::gate::{note_answer_at, request_key, serve_at};
use stream_converter::ids::{answer_id, completion_id, request_id, short_id, simulated_delay_ms};
use stream_converter::interop::{from_bytes, from_text, to_text};
use stream_converter::json::JsonValue;
use stream_converter::key::compute_cache_key;
use stream_converter::mask::mask_key;
use stream_converter::text::{find_char, strip_prefix, trim, trim_end_char};
use stream_converter::upstream::{build_upstream_url, upstream_url_from, UrlParts};
use stream_converter::usage::{apply_cache_hit_discount, cached_tokens, usage_or_empty};

const SEC: u128 = 1_000_000_000;

fn json(text: &str) -> JsonValue {
    from_text(text).unwrap()
}

fn unset() -> EnvVars {
    EnvVars {
        upstream_url: None,
        timeout: None,
        debug: None,
        port: None,
        fix_tool_call_name: None,
        cache_enabled: None,
        cache_ttl_secs: None,
        cache_max_entries: None,
        cache_max_request_bytes: None,
        cache_max_response_bytes: None,
        cache_min_hit_count: None,
        cache_warmup_window_secs: None,
    }
}

fn set(value: &str) -> Option<String> {
    Some(value.to_string())
}

#[test]
fn defaults() {
    let config = Config::from_env(unset());
    assert_eq!(config.upstream_url, "http://127.0.0.1:8317");
    assert_eq!(config.timeout_secs, 600);
    assert!(config.debug);
    assert_eq!(config.port, 18318);
    assert!(config.fix_tool_call_name);
    assert!(!config.cache_enabled);
    assert_eq!(config.cache_ttl_secs, 300);
    assert_eq!(config.cache_max_entries, 100);
    assert_eq!(config.cache_max_request_bytes, 102400);
    assert_eq!(config.cache_min_hit_count, 3);
    assert_eq!(config.cache_warmup_window_secs, 180);
}

#[test]
fn settings() {
    let config = Config::from_env(EnvVars {
        upstream_url: set("http://up"),
        timeout: set("5"),
        debug: set("False"),
        port: set("80"),
        fix_tool_call_name: set("FALSE"),
        cache_enabled: set("True"),
        cache_ttl_secs: set("1"),
        cache_max_entries: set("2"),
        cache_max_request_bytes: set("3"),
        cache_max_response_bytes: set("4"),
        cache_min_hit_count: set("0"),
        cache_warmup_window_secs: set("6"),
    });
    assert_eq!(config.upstream_url, "http://up");
    assert_eq!(config.timeout_secs, 5);
    assert!(!config.debug);
    assert_eq!(config.port, 80);
    assert!(!config.fix_tool_call_name);
    assert!(config.cache_enabled);
    assert_eq!(config.cache_ttl_secs, 1);
    assert_eq!(config.cache_max_entries, 2);
    assert_eq!(config.cache_max_request_bytes, 3);
    assert_eq!(config.cache_min_hit_count, 0);
    assert_eq!(config.cache_warmup_window_secs, 6);
}

#[test]
fn settings_that_are_no_numbers() {
    let mut vars = unset();
    vars.timeout = set(" 5");
    vars.port = set("65536");
    vars.debug = set("yes");
    vars.cache_enabled = set("1");
    vars.fix_tool_call_name = set("no");
    vars.cache_max_response_bytes = set("7");
    let config = Config::from_env(vars);
    assert_eq!(config.timeout_secs, 600);
    assert_eq!(config.port, 18318);
    assert!(!config.debug);
    assert!(!config.cache_enabled);
    assert!(config.fix_tool_call_name);
    assert_eq!(config.cache_max_request_bytes, 7);
    let mut vars = unset();
    vars.cache_max_request_bytes = set("much");
    vars.cache_max_response_bytes = set("7");
    assert_eq!(Config::from_env(vars).cache_max_request_bytes, 102400);
}

#[test]
fn decimals() {
    assert_eq!(parse_decimal("0", 9), Some(0));
    assert_eq!(parse_decimal("+7", 9), Some(7));
    assert_eq!(parse_decimal("007", 9), Some(7));
    assert_eq!(parse_decimal("10", 9), None);
    assert_eq!(parse_decimal("", 9), None);
    assert_eq!(parse_decimal("+", 9), None);
    assert_eq!(parse_decimal("-0", 9), None);
    assert_eq!(parse_decimal("1_0", 99), None);
    assert_eq!(parse_decimal("18446744073709551615", u64::MAX), Some(u64::MAX));
    assert_eq!(parse_decimal("18446744073709551616", u64::MAX), None);
    for sample in ["", "+", "-", "0", "+0", "00", "256", "255", " 1", "1 ", "٣", "1e1"] {
        assert_eq!(parse_decimal(sample, 255), sample.parse::<u8>().ok().map(u64::from));
    }
}

#[test]
fn masks() {
    assert_eq!(mask_key(""), "(empty)");
    assert_eq!(mask_key("abc"), "abc***");
    assert_eq!(mask_key("abcd"), "abcd***");
    assert_eq!(mask_key("abcdefghijkl"), "abcd***");
    assert_eq!(mask_key("abcdefghijklm"), "abcdef****jklm");
    assert_eq!(mask_key("你"), "你***");
}

#[test]
fn shows_authorization() {
    assert_eq!(auth_label(""), "(none)");
    assert_eq!(auth_label("Bearer abcdefghijklm"), "abcdef****jklm");
    assert_eq!(auth_label("Bearer Bearer abc"), "abc***");
    assert_eq!(auth_label("Bearer "), "(empty)");
    assert_eq!(auth_label("Basic abc"), "Basi***");
    assert_eq!(forwarded_auth("Bearer x"), Some("Bearer x"));
    assert_eq!(forwarded_auth(""), None);
}

#[test]
fn upstream_addresses() {
    assert_eq!(build_upstream_url("http://h:1"), "http://h:1/v1/chat/completions");
    assert_eq!(build_upstream_url("http://h:1//"), "http://h:1//");
    assert_eq!(build_upstream_url("http://h:1/"), "http://h:1/v1/chat/completions");
    assert_eq!(build_upstream_url("http://h/custom-route"), "http://h/custom-route");
    assert_eq!(build_upstream_url("http://h?a=b"), "http://h?a=b");
    assert_eq!(build_upstream_url("no address/"), "no address/v1/chat/completions");
    assert_eq!(build_upstream_url("localhost:8317"), "localhost:8317/v1/chat/completions");
    assert_eq!(build_upstream_url("localhost:8317/"), "localhost:8317/v1/chat/completions");
    assert_eq!(build_upstream_url("localhost:8317/custom"), "localhost:8317/custom");
    assert_eq!(build_upstream_url("localhost:8317?a=b"), "localhost:8317?a=b");
    assert_eq!(build_upstream_url("127.0.0.1:8317"), "127.0.0.1:8317/v1/chat/completions");
    for base in [
        "http://h:1", "https://example.com/", "http://h/x", "http://h?q", "http://u@h", "http://h:",
        "http://h/..", "http://h/a/../", "http://h/.", "http://[::1]:80", "http://h\\", "http://h///",
        "http:////h", "https://u:p@例え.jp//..", "http://h/%2e%2E",
    ] {
        let once = build_upstream_url(base);
        assert_eq!(build_upstream_url(&once), once);
    }
    let parts = Some(UrlParts { has_host: true, path: "/".to_string(), query: None });
    assert_eq!(upstream_url_from("x//", &parts), "x/v1/chat/completions");
    let parts = Some(UrlParts { has_host: true, path: "/a".to_string(), query: None });
    assert_eq!(upstream_url_from("x//", &parts), "x//");
    let parts = Some(UrlParts { has_host: false, path: "80".to_string(), query: None });
    assert_eq!(upstream_url_from("h:80", &parts), "h:80/v1/chat/completions");
    let parts = Some(UrlParts { has_host: false, path: "80/a".to_string(), query: None });
    assert_eq!(upstream_url_from("h:80/a", &parts), "h:80/a");
    assert_eq!(upstream_url_from("x", &None), "x/v1/chat/completions");
}

#[test]
fn plain_text_operations() {
    assert_eq!(trim(" \t a b\u{3000}\n"), "a b");
    assert_eq!(trim(""), "");
    assert_eq!(trim_end_char("a//", '/'), "a");
    assert_eq!(strip_prefix("data: x", "data: "), Some("x"));
    assert_eq!(strip_prefix("data:x", "data: "), None);
    assert_eq!(find_char("你好\n", '\n'), Some(2));
    assert_eq!(find_char("", '\n'), None);
}

#[test]
fn white_space_is_that_of_unicode() {
    let mut code: u32 = 0;
    while code < 0x3100 {
        if let Some(c) = char::from_u32(code) {
            let s = c.to_string();
            assert_eq!(trim(&s).is_empty(), c.is_whitespace(), "{}", code);
        }
        code += 1;
    }
}

#[test]
fn reads_requests() {
    let info = read_request(&json(r#"{"model":"m","stream":true,"messages":[1,2]}"#));
    assert_eq!((info.model.as_str(), info.stream, info.message_count), ("m", true, 2));
    let info = read_request(&json(r#"{"model":3,"stream":"true","messages":{}}"#));
    assert_eq!((info.model.as_str(), info.stream, info.message_count), ("(unknown)", false, 0));
    assert_eq!(parse_request(b"[1]"), Ok(json("[1]")));
    assert_eq!(
        parse_request(b"{"),
        Err("Invalid JSON: EOF while parsing an object at line 1 column 1".to_string())
    );
    assert!(from_bytes(&[0xff]).is_err());
}

#[test]
fn asks_for_a_stream() {
    let mut request = json(r#"{"a":1,"stream":false}"#);
    force_stream(&mut request);
    assert_eq!(to_text(&request), r#"{"a":1,"stream":true}"#);
    let mut request = JsonValue::Null;
    force_stream(&mut request);
    assert_eq!(to_text(&request), r#"{"stream":true}"#);
}

#[test]
fn error_bodies() {
    assert_eq!(
        to_text(&error_json("no \"x\"", "invalid_request")),
        r#"{"error":{"message":"no \"x\"","type":"invalid_request"}}"#
    );
    assert_eq!(upstream_error_message("502", "bad"), "Upstream error: 502 - bad");
    assert_eq!(connect_error_message("e"), "Connection failed: e");
    assert_eq!(read_error_message("e"), "Stream read error: e");
}

#[test]
fn error_events() {
    assert_eq!(
        error_event("m", "t"),
        "data: {\"error\": {\"message\": \"m\", \"type\": \"t\"}}\n\n"
    );
    assert_eq!(
        error_event("say \"hi\"\n", "t"),
        "data: {\"error\": {\"message\": \"say \\\"hi\\\"\\n\", \"type\": \"t\"}}\n\n"
    );
    assert_eq!(classify_failure(true, true), UpstreamFailure::Connect);
    assert_eq!(classify_failure(false, true), UpstreamFailure::Timeout);
    assert_eq!(classify_failure(false, false), UpstreamFailure::Other);
    assert_eq!(
        failed_stream(UpstreamFailure::Connect, "E", "x"),
        "data: {\"error\": {\"message\": \"Connection failed: x\", \"type\": \"connect_error\"}}\n\ndata: [DONE]\n\n"
    );
    assert_eq!(
        failed_stream(UpstreamFailure::Timeout, "E", "x"),
        "data: {\"error\": {\"message\": \"Read timeout from upstream\", \"type\": \"timeout\"}}\n\ndata: [DONE]\n\n"
    );
    assert_eq!(
        failed_stream(UpstreamFailure::Other, "E", "x"),
        "data: {\"error\": {\"message\": \"E: x\", \"type\": \"stream_error\"}}\n\ndata: [DONE]\n\n"
    );
    let (event, end) = broken_stream("x");
    assert_eq!(
        event,
        "data: {\"error\": {\"message\": \"Stream error: x\", \"type\": \"stream_error\"}}\n\n"
    );
    assert_eq!(end, "data: [DONE]\n\n");
    assert_eq!(
        refused_stream("401 Unauthorized", "{\"a\":1}"),
        "data: {\"error\":{\"message\":\"Upstream error: 401 Unauthorized - {\\\"a\\\":1}\",\"type\":\"upstream_error\"}}\n\ndata: [DONE]\n\n"
    );
}

#[test]
fn completions() {
    let plain = completion("chatcmpl-1", 1700000000, "m", "hi", json("{}"));
    assert_eq!(
        to_text(&plain),
        r#"{"choices":[{"finish_reason":"stop","index":0,"message":{"content":"hi","role":"assistant"}}],"created":1700000000,"id":"chatcmpl-1","model":"m","object":"chat.completion","usage":{}}"#
    );
    let negative = completion("i", -1, "m", "", JsonValue::Null);
    assert_eq!(to_text(negative.get("created").unwrap()), "-1");
    let collected = || ("hi".to_string(), String::new(), JsonValue::Null);
    let fresh = answer(collected(), "m", None, None);
    assert!(to_text(fresh.get("created").unwrap()).parse::<u64>().unwrap() > 1_600_000_000);
    assert_ne!(fresh.get("id"), answer(collected(), "m", None, None).get("id"));
    assert_eq!(
        to_text(&answer_with("i", 7, collected(), "asked", Some(1), None)),
        r#"{"choices":[{"finish_reason":"stop","index":0,"message":{"content":"hi","role":"assistant"}}],"created":7,"id":"i","model":"asked","object":"chat.completion","usage":{"completion_tokens":0,"prompt_tokens":0,"total_tokens":0}}"#
    );
    let reported = json(r#"{"prompt_cache_hit_tokens":8,"prompt_tokens_details":{"cached_tokens":6}}"#);
    let discounted = answer_with("i", 7, ("".to_string(), "named".to_string(), reported), "asked", Some(4), Some(3));
    assert_eq!(discounted.get("model"), Some(&JsonValue::Str("named".to_string())));
    assert_eq!(
        to_text(discounted.get("usage").unwrap()),
        r#"{"prompt_cache_hit_tokens":4,"prompt_tokens_details":{"cached_tokens":3}}"#
    );
    assert_eq!(choose_model(String::new(), "asked"), "asked");
    assert_eq!(choose_model("named".to_string(), "asked"), "named");
    assert_eq!(to_text(&health()), r#"{"status":"ok"}"#);
}

#[test]
fn identifiers() {
    assert_eq!(short_id("01234567-89ab"), "01234567");
    assert_eq!(request_id().len(), 8);
    assert_ne!(request_id(), request_id());
    assert_eq!(answer_id("u"), "chatcmpl-u");
    let id = completion_id();
    assert!(id.starts_with("chatcmpl-"));
    assert_eq!(id.len(), 45);
    assert_ne!(id, completion_id());
}

#[test]
fn delays_vary_within_bounds() {
    let mut delays = vec![];
    for _ in 0..100 {
        let delay = simulated_delay_ms();
        assert!(300 <= delay && delay <= 800);
        delays.push(delay);
    }
    assert!(delays.iter().any(|d| *d != delays[0]));
}

#[test]
fn usage_reports() {
    let mut usage = json(
        r#"{"prompt_tokens":10,"prompt_cache_hit_tokens":8,"prompt_tokens_details":{"cached_tokens":6,"audio_tokens":1}}"#,
    );
    let counts = cached_tokens(&usage);
    assert_eq!(counts.hit_tokens, Some(serde_json::Number::from(8u64)));
    assert_eq!(counts.cached_tokens, Some(serde_json::Number::from(6u64)));
    let before = usage.clone();
    apply_cache_hit_discount(&mut usage, None, None);
    assert_eq!(to_text(&usage), to_text(&before));
    apply_cache_hit_discount(&mut usage, Some(4), Some(3));
    assert_eq!(
        to_text(&usage),
        r#"{"prompt_cache_hit_tokens":4,"prompt_tokens":10,"prompt_tokens_details":{"audio_tokens":1,"cached_tokens":3}}"#
    );
    let mut other = json(r#"{"prompt_cache_hit_tokens":"8","prompt_tokens_details":[]}"#);
    assert!(cached_tokens(&other).hit_tokens.is_none());
    apply_cache_hit_discount(&mut other, Some(4), Some(3));
    assert_eq!(to_text(&other), r#"{"prompt_cache_hit_tokens":"8","prompt_tokens_details":[]}"#);
    assert_eq!(
        to_text(&usage_or_empty(JsonValue::Null)),
        r#"{"completion_tokens":0,"prompt_tokens":0,"total_tokens":0}"#
    );
    assert_eq!(usage_or_empty(json("{}")), json("{}"));
}

#[test]
fn cache_figures() {
    let mut cache = ResponseCache::new(60, 10, 1024);
    cache.put_at(1, JsonValue::Null, 1, 0);
    cache.get_at(1, 0);
    cache.get_at(2, 0);
    let rate = serde_json::Number::from_f64(0.5).unwrap();
    assert_eq!(
        to_text(&cache_stats(&cache.stats(), true, rate)),
        r#"{"enabled":true,"evictions":0,"expirations":0,"hit_rate":0.5,"hits":1,"max_entries":10,"min_hit_count":0,"misses":1,"oversize_skips":0,"size":1,"stores":1,"ttl_secs":60,"warming_keys":0}"#
    );
}

const ASK: &str = r#"{"model":"m","messages":[{"role":"user","content":"hi"}]}"#;

#[test]
fn only_plain_requests_have_a_key() {
    let request = json(ASK);
    assert_eq!(request_key(true, false, &request), compute_cache_key(&request));
    assert!(request_key(true, false, &request).is_some());
    assert_eq!(request_key(true, true, &request), None);
    assert_eq!(request_key(false, false, &request), None);
}

fn warmed(count: u32) -> ResponseCache {
    let mut vars = unset();
    vars.cache_min_hit_count = Some(count.to_string());
    configured_cache(&Config::from_env(vars))
}

#[test]
fn served_from_the_threshold_on() {
    let mut cache = warmed(3);
    let answer = json(r#"{"id":"a","choices":[{"message":{"content":"hi"}}]}"#);
    let same = json(r#"{"id":"b","choices":[{"message":{"content":"hi"}}]}"#);
    let other = json(r#"{"id":"c","choices":[{"message":{"content":"ho"}}]}"#);
    assert_eq!(serve_at(&mut cache, 1, 0), None);
    assert!(!note_answer_at(&mut cache, 1, &other, 10, 0));
    assert!(!note_answer_at(&mut cache, 1, &answer, 10, 0));
    assert!(!note_answer_at(&mut cache, 1, &same, 10, 180 * SEC));
    assert_eq!(serve_at(&mut cache, 1, 180 * SEC), None);
    assert_eq!(cache.stats().misses, 0);
    assert!(note_answer_at(&mut cache, 1, &same, 10, 180 * SEC));
    assert_eq!(serve_at(&mut cache, 1, 480 * SEC), Some(same));
    assert_eq!(serve_at(&mut cache, 2, 480 * SEC), None);
    assert_eq!(serve_at(&mut cache, 1, 480 * SEC + 1), None);
    assert_eq!(cache.stats().hits, 1);
}

#[test]
fn large_request_is_not_stored() {
    let mut cache = warmed(0);
    let answer = json(r#"{"a":1}"#);
    assert!(note_answer_at(&mut cache, 1, &answer, 102401, 0));
    assert_eq!(serve_at(&mut cache, 1, 0), None);
    assert_eq!(cache.stats().oversize_skips, 1);
    assert_eq!(cache.stats().misses, 1);
}

#[test]
fn cache_as_configured() {
    let stats = warmed(5).stats();
    assert_eq!(stats.ttl_secs, 300);
    assert_eq!(stats.max_size, 100);
    assert_eq!(stats.min_hit_count, 5);
    assert_eq!(warmed(0).stats().min_hit_count, 0);
}

#[test]
fn exchange_without_cache() {
    let mut cache = warmed(0);
    match begin_at(&mut cache, false, ASK.as_bytes(), 0).1 {
        Step::Collect { request, key, model } => {
            assert_eq!(
                to_text(&request),
                r#"{"messages":[{"content":"hi","role":"user"}],"model":"m","stream":true}"#
            );
            assert_eq!(key, None);
            assert_eq!(model, "m");
            assert!(!conclude_at(&mut cache, key, &json("{}"), 10, 0));
        }
        _ => panic!(),
    }
    assert_eq!(cache.stats().misses, 0);
    assert_eq!(cache.stats().stores, 0);
}

#[test]
fn exchange_with_cache() {
    let mut cache = warmed(0);
    let answer = json(r#"{"id":"x"}"#);
    match begin_at(&mut cache, true, ASK.as_bytes(), 0).1 {
        Step::Collect { key, .. } => {
            assert_eq!(key, compute_cache_key(&json(ASK)));
            assert!(conclude_at(&mut cache, key, &answer, ASK.len(), 0));
        }
        _ => panic!(),
    }
    match begin_at(&mut cache, true, ASK.as_bytes(), SEC).1 {
        Step::Serve { response, key } => {
            assert_eq!(response, answer);
            assert_eq!(Some(key), compute_cache_key(&json(ASK)));
        }
        _ => panic!(),
    }
    let with_user = json(r#"{"user":"u","model":"m","messages":[{"content":"hi","role":"user"}]}"#);
    match begin_parsed_at(&mut cache, true, with_user, SEC) {
        Step::Serve { response, key } => {
            assert_eq!(response, answer);
            assert_eq!(Some(key), compute_cache_key(&json(ASK)));
        }
        _ => panic!(),
    }
    match begin_parsed_at(&mut cache, true, json(r#"{"stream":true,"model":"m","messages":[{"role":"user","content":"hi"}]}"#), SEC) {
        Step::Forward(request) => assert_eq!(request.get("stream"), Some(&JsonValue::Bool(true))),
        _ => panic!(),
    }
    assert_eq!(cache.stats().hits, 2);
    assert_eq!(cache.stats().misses, 1);
}

#[test]
fn exchange_on_the_clock() {
    let mut cache = warmed(0);
    match begin(&mut cache, true, ASK.as_bytes()).1 {
        Step::Collect { key, .. } => assert!(conclude(&mut cache, key, &json("{}"), 10)),
        _ => panic!(),
    }
    assert!(matches!(begin(&mut cache, true, ASK.as_bytes()).1, Step::Serve { .. }));
}

#[test]
fn exchange_with_unfit_bodies() {
    let mut cache = warmed(0);
    match begin_at(&mut cache, true, b"nonsense", 0).1 {
        Step::Refuse(message) => assert!(message.starts_with("Invalid JSON: expected ident")),
        _ => panic!(),
    }
    let (info, step) = begin_at(&mut cache, true, b"[]", 0);
    assert_eq!(info.unwrap().model, "(unknown)");
    assert!(matches!(step, Step::Misfit));
    let (info, _) = begin_at(&mut cache, true, b"nonsense", 0);
    assert!(info.is_none());
    match begin_at(&mut cache, true, b"null", 0).1 {
        Step::Collect { request, key, model } => {
            assert_eq!(to_text(&request), r#"{"stream":true}"#);
            assert_eq!(key, None);
            assert_eq!(model, "(unknown)");
        }
        _ => panic!(),
    }
    assert_eq!(cache.stats().misses, 0);
}
