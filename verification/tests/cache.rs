use std::time::{Duration, Instant};

use stream_converter::cache::ResponseCache;
use stream_converter::canonical::{canonicalize_response, hash_value};
use stream_converter::clock::Clock;
use stream_converter::digest::fingerprint;
use stream_converter::interop::to_text;
use stream_converter::json::{JsonValue, Object};

const MS: u128 = 1_000_000;
const SEC: u128 = 1_000_000_000;

fn text(s: &str) -> JsonValue {
    JsonValue::Str(s.to_string())
}

fn num(n: u64) -> JsonValue {
    JsonValue::Number(serde_json::Number::from(n))
}

fn array(items: Vec<JsonValue>) -> JsonValue {
    JsonValue::Array(items)
}

fn object(fields: Vec<(&str, JsonValue)>) -> JsonValue {
    JsonValue::Object(Object {
        entries: fields.into_iter().map(|(k, v)| (k.to_string(), v)).collect(),
    })
}

#[test]
fn test_cache_get_put_hit_evict() {
    let mut cache = ResponseCache::new(60, 2, 1024);
    let resp1 = object(vec![("k", num(1))]);
    let resp2 = object(vec![("k", num(2))]);
    let resp3 = object(vec![("k", num(3))]);

    cache.put(1, resp1.clone(), 10);
    cache.put(2, resp2.clone(), 10);
    assert_eq!(cache.get(1), Some(resp1.clone()));
    cache.put(3, resp3.clone(), 10);

    assert_eq!(cache.get(2), None);
    assert_eq!(cache.get(1), Some(resp1));
    assert_eq!(cache.get(3), Some(resp3));

    let stats = cache.stats();
    assert_eq!(stats.evictions, 1);
    assert!(stats.hits >= 2);
}

#[test]
fn test_cache_ttl_expiration() {
    let mut cache = ResponseCache::new(0, 10, 1024);
    cache.put_at(1, object(vec![("k", num(1))]), 10, 0);
    assert_eq!(cache.get_at(1, 5 * MS), None);
    assert_eq!(cache.stats().expirations, 1);
}

#[test]
fn test_oversize_skip() {
    let mut cache = ResponseCache::new(60, 10, 10);
    cache.put(1, object(vec![("big", text("this is definitely way larger than ten bytes"))]), 20);
    assert_eq!(cache.get(1), None);
    assert_eq!(cache.stats().oversize_skips, 1);
}

#[test]
fn test_warmup_threshold() {
    let mut cache = ResponseCache::new(60, 10, 1024).with_warmup(3, Duration::from_secs(180));
    let resp = object(vec![("k", num(1))]);
    assert!(!cache.record_occurrence(1, &resp));
    assert!(!cache.is_warmed_up(1));
    assert!(!cache.record_occurrence(1, &resp));
    assert!(!cache.is_warmed_up(1));
    assert!(cache.record_occurrence(1, &resp));
    assert!(cache.is_warmed_up(1));
    let mut plain = ResponseCache::new(60, 10, 1024);
    assert!(plain.record_occurrence(2, &resp));
    assert!(plain.is_warmed_up(2));
}

#[test]
fn test_warmup_inconsistent_response_resets() {
    let mut cache = ResponseCache::new(60, 10, 1024).with_warmup(3, Duration::from_secs(180));
    let a = object(vec![("k", num(1))]);
    let b = object(vec![("k", num(2))]);
    assert!(!cache.record_occurrence(1, &a));
    assert!(!cache.record_occurrence(1, &a));
    assert!(!cache.record_occurrence(1, &b));
    assert!(!cache.record_occurrence(1, &a));
    assert!(!cache.record_occurrence(1, &a));
    assert!(cache.record_occurrence(1, &a));
    assert!(cache.is_warmed_up(1));
}

#[test]
fn test_warmup_window_expiry() {
    let mut cache = ResponseCache::new(60, 10, 1024).with_warmup(3, Duration::from_millis(50));
    let resp = object(vec![("k", num(1))]);
    assert!(!cache.record_occurrence_at(1, &resp, 0));
    assert!(!cache.record_occurrence_at(1, &resp, 60 * MS));
    assert!(!cache.record_occurrence_at(1, &resp, 60 * MS));
    assert!(cache.record_occurrence_at(1, &resp, 60 * MS));
    let stats = cache.stats();
    assert_eq!(stats.warming_keys, 0);
}

#[test]
fn test_warmup_gate_with_cache() {
    let mut cache = ResponseCache::new(60, 10, 1024).with_warmup(3, Duration::from_secs(180));
    let resp = object(vec![("v", num(1))]);
    assert!(!cache.record_occurrence(9, &resp));
    assert!(cache.get(9).is_none());
    assert!(!cache.record_occurrence(9, &resp));
    assert!(cache.get(9).is_none());
    assert!(cache.record_occurrence(9, &resp));
    cache.put(9, resp.clone(), 10);
    assert!(cache.is_warmed_up(9));
    assert_eq!(cache.get(9), Some(resp));
}

fn answer(id: &str, created: u64, prompt: u64, completion: u64, total: u64) -> JsonValue {
    object(vec![
        ("id", text(id)),
        ("object", text("chat.completion")),
        ("created", num(created)),
        ("model", text("m")),
        (
            "choices",
            array(vec![object(vec![
                ("index", num(0)),
                ("message", object(vec![("role", text("assistant")), ("content", text("你好"))])),
                ("finish_reason", text("stop")),
            ])]),
        ),
        (
            "usage",
            object(vec![
                ("prompt_tokens", num(prompt)),
                ("completion_tokens", num(completion)),
                ("total_tokens", num(total)),
            ]),
        ),
    ])
}

#[test]
fn test_warmup_ignores_dynamic_fields() {
    let mut cache = ResponseCache::new(60, 10, 1024).with_warmup(3, Duration::from_secs(180));
    let a = answer("chatcmpl-aaa", 1000, 10, 5, 15);
    let b = answer("chatcmpl-bbb", 2000, 11, 6, 17);
    assert_eq!(hash_value(&a), hash_value(&b));
    assert!(!cache.record_occurrence(1, &a));
    assert!(!cache.record_occurrence(1, &b));
    assert!(cache.record_occurrence(1, &a));
    assert!(cache.is_warmed_up(1));
}

#[test]
fn test_warmup_ignores_field_order() {
    let mut cache = ResponseCache::new(60, 10, 1024).with_warmup(3, Duration::from_secs(180));
    let a = object(vec![
        ("id", text("x1")),
        (
            "choices",
            array(vec![object(vec![
                ("finish_reason", text("stop")),
                ("message", object(vec![("content", text("abc")), ("role", text("assistant"))])),
            ])]),
        ),
        ("usage", object(vec![("total_tokens", num(1))])),
    ]);
    let b = object(vec![
        ("usage", object(vec![("total_tokens", num(1))])),
        (
            "choices",
            array(vec![object(vec![
                ("message", object(vec![("role", text("assistant")), ("content", text("abc"))])),
                ("finish_reason", text("stop")),
            ])]),
        ),
        ("id", text("x2")),
    ]);
    assert_eq!(hash_value(&a), hash_value(&b));
    assert!(!cache.record_occurrence(2, &a));
    assert!(!cache.record_occurrence(2, &b));
    assert!(cache.record_occurrence(2, &a));
}

fn saying(content: &str) -> JsonValue {
    object(vec![(
        "choices",
        array(vec![object(vec![("message", object(vec![("content", text(content))]))])]),
    )])
}

#[test]
fn test_content_difference_still_detected() {
    let mut cache = ResponseCache::new(60, 10, 1024).with_warmup(3, Duration::from_secs(180));
    let a = saying("你好");
    let b = saying("再见");
    assert_ne!(hash_value(&a), hash_value(&b));
    assert!(!cache.record_occurrence(3, &a));
    assert!(!cache.record_occurrence(3, &b));
    assert!(!cache.record_occurrence(3, &a));
    assert!(!cache.record_occurrence(3, &a));
    assert!(cache.record_occurrence(3, &a));
}

#[test]
fn test_occurrences_cleaned_after_window() {
    let mut cache = ResponseCache::new(60, 10, 1024).with_warmup(3, Duration::from_millis(50));
    let resp = object(vec![("v", num(1))]);
    assert!(!cache.record_occurrence_at(1, &resp, 0));
    assert!(!cache.record_occurrence_at(1, &resp, 0));
    assert!(cache.record_occurrence_at(1, &resp, 0));
    assert!(cache.is_warmed_up_at(1, 0));
    assert!(!cache.record_occurrence_at(1, &resp, 60 * MS));
    let stats = cache.stats();
    assert_eq!(stats.warming_keys, 1);
}

#[test]
fn canonical_form_drops_what_varies() {
    let mut value = object(vec![
        ("system_fingerprint", text("f")),
        ("service_tier", text("t")),
        ("request_id", text("r")),
        ("model", text("m")),
        ("id", text("i")),
        (
            "choices",
            array(vec![object(vec![
                ("id", text("c")),
                (
                    "delta",
                    object(vec![
                        ("id", text("d")),
                        (
                            "tool_calls",
                            array(vec![object(vec![("id", text("t1")), ("index", num(0))])]),
                        ),
                    ]),
                ),
                ("other", object(vec![("id", text("kept"))])),
            ])]),
        ),
    ]);
    let before = value.clone();
    canonicalize_response(&mut value);
    let expected = r#"{"choices":[{"delta":{"tool_calls":[{"index":0}]},"other":{"id":"kept"}}],"model":"m"}"#;
    assert_eq!(to_text(&value), expected);
    assert_eq!(hash_value(&before), fingerprint(expected));
    let mut again = value.clone();
    canonicalize_response(&mut again);
    assert_eq!(again, value);
}

#[test]
fn lives_for_exactly_its_ttl() {
    let mut cache = ResponseCache::new(60, 10, 1024);
    cache.put_at(1, num(1), 10, 5 * SEC);
    assert_eq!(cache.get_at(1, 65 * SEC), Some(num(1)));
    assert_eq!(cache.get_at(1, 65 * SEC + 1), None);
    let stats = cache.stats();
    assert_eq!((stats.hits, stats.misses, stats.expirations), (1, 1, 1));
    assert_eq!(stats.current_size, 0);
    assert_eq!(cache.get_at(1, 65 * SEC + 1), None);
    assert_eq!(cache.stats().expirations, 1);
    assert_eq!(cache.stats().misses, 2);
}

#[test]
fn storing_again_replaces() {
    let mut cache = ResponseCache::new(60, 2, 1024);
    cache.put_at(1, num(1), 10, 0);
    cache.put_at(2, num(2), 10, 0);
    cache.put_at(1, num(11), 10, 50 * SEC);
    assert_eq!(cache.stats().stores, 2);
    assert_eq!(cache.get_at(1, 100 * SEC), Some(num(11)));
    cache.put_at(3, num(3), 10, 50 * SEC);
    assert_eq!(cache.get_at(2, 50 * SEC), None);
    assert_eq!(cache.stats().evictions, 1);
}

#[test]
fn request_size_limit_is_inclusive() {
    let mut cache = ResponseCache::new(60, 10, 10);
    cache.put_at(1, num(1), 10, 0);
    cache.put_at(2, num(2), 11, 0);
    assert_eq!(cache.get_at(1, 0), Some(num(1)));
    assert_eq!(cache.get_at(2, 0), None);
    assert_eq!(cache.stats().oversize_skips, 1);
    assert_eq!(cache.stats().stores, 1);
}

#[test]
fn cache_of_no_entries_holds_nothing() {
    let mut cache = ResponseCache::new(60, 0, 1024);
    cache.put(1, object(vec![("k", num(1))]), 10);
    assert_eq!(cache.stats().current_size, 0);
    assert_eq!(cache.get(1), None);
    cache.put_at(2, num(2), 2000, 0);
    let stats = cache.stats();
    assert_eq!((stats.stores, stats.evictions, stats.oversize_skips), (0, 0, 1));
    assert_eq!(stats.max_size, 0);
}

#[test]
fn full_table_still_counts_the_keys_it_has() {
    let mut cache = ResponseCache::new(60, 1, 1024).with_warmup(2, Duration::from_secs(180));
    let resp = object(vec![("k", num(1))]);
    assert!(!cache.record_occurrence(1, &resp));
    assert!(!cache.record_occurrence(2, &resp));
    assert!(!cache.record_occurrence(3, &resp));
    assert!(cache.record_occurrence(1, &resp));
    assert_eq!(cache.stats().warming_keys, 1);
}

#[test]
fn warmed_up_key_is_forgotten_with_its_window() {
    let mut cache = ResponseCache::new(60, 10, 1024).with_warmup(3, Duration::from_millis(50));
    let resp = object(vec![("v", num(1))]);
    assert!(!cache.record_occurrence_at(1, &resp, 0));
    assert!(!cache.record_occurrence_at(1, &resp, 0));
    assert!(cache.record_occurrence_at(1, &resp, 0));
    assert!(cache.is_warmed_up_at(1, 50 * MS));
    assert!(!cache.is_warmed_up_at(1, 60 * MS));
}

#[test]
fn stored_response_lasts_through_lookups_and_counts() {
    let mut cache = ResponseCache::new(60, 2, 1024).with_warmup(2, Duration::from_secs(180));
    let whole = answer("chatcmpl-aaa", 1000, 10, 5, 15);
    cache.put_at(1, whole.clone(), 10, 0);
    for second in 1..61 {
        assert_eq!(cache.get_at(2, second * SEC), None);
        cache.record_fingerprint_at(second as u64, 7, second * SEC);
        assert_eq!(cache.get_at(1, second * SEC), Some(whole.clone()));
    }
}

#[test]
fn used_response_outlasts_fewer_keys_than_fit() {
    let mut cache = ResponseCache::new(60, 3, 1024);
    cache.put_at(1, num(1), 10, 0);
    cache.put_at(2, num(2), 10, 0);
    cache.put_at(3, num(3), 10, 0);
    assert_eq!(cache.get_at(1, 0), Some(num(1)));
    cache.put_at(4, num(4), 10, 0);
    cache.put_at(5, num(5), 10, 0);
    cache.put_at(4, num(44), 10, 0);
    assert_eq!(cache.get_at(1, 0), Some(num(1)));
    cache.put_at(6, num(6), 10, 0);
    cache.put_at(7, num(7), 10, 0);
    cache.put_at(8, num(8), 10, 0);
    assert_eq!(cache.get_at(1, 0), None);
}

#[test]
fn threshold_is_a_run_of_equal_responses() {
    let hashes: [u64; 8] = [1, 1, 2, 2, 1, 1, 1, 3];
    let reached = [false, false, false, false, false, false, true, true];
    let mut cache = ResponseCache::new(60, 10, 1024).with_warmup(3, Duration::from_secs(180));
    for i in 0..8 {
        cache.record_fingerprint_at(9, 1, i as u128);
        assert_eq!(cache.record_fingerprint_at(1, hashes[i], i as u128), reached[i]);
    }
}

#[test]
fn books_balance() {
    let mut cache = ResponseCache::new(1, 3, 1024).with_warmup(2, Duration::from_secs(180));
    let mut lookups = 0;
    let mut oversize = 0;
    for i in 0..200u64 {
        let now = i as u128 * 200 * MS;
        match i % 7 {
            0 | 3 => {
                cache.get_at(i % 5, now);
                lookups += 1;
            }
            1 | 4 | 5 => cache.put_at(i % 6, num(i), 10, now),
            2 => {
                cache.put_at(i % 6, num(i), 2000, now);
                oversize += 1;
            }
            _ => {
                cache.record_fingerprint_at(i % 4, i % 2, now);
            }
        }
        let stats = cache.stats();
        assert_eq!(
            stats.current_size as u64 + stats.evictions + stats.expirations,
            stats.stores
        );
        assert_eq!(stats.hits + stats.misses, lookups);
        assert_eq!(stats.oversize_skips, oversize);
        assert!(stats.current_size <= 3 && stats.warming_keys <= 6);
    }
}

#[test]
fn table_of_sightings_is_bounded() {
    let mut cache = ResponseCache::new(60, 1, 1024).with_warmup(2, Duration::from_millis(50));
    assert!(!cache.record_fingerprint_at(1, 7, 0));
    assert!(!cache.record_fingerprint_at(2, 7, 10 * MS));
    assert!(!cache.record_fingerprint_at(3, 7, 20 * MS));
    assert!(!cache.record_fingerprint_at(3, 7, 20 * MS));
    assert_eq!(cache.stats().warming_keys, 2);
    assert!(!cache.record_fingerprint_at(3, 7, 55 * MS));
    assert_eq!(cache.stats().warming_keys, 2);
    assert!(cache.record_fingerprint_at(3, 7, 55 * MS));
    assert_eq!(cache.stats().warming_keys, 1);
}

#[test]
fn live_response_counts_as_warmed_up() {
    let mut cache = ResponseCache::new(60, 10, 1024).with_warmup(3, Duration::from_secs(1));
    cache.put_at(1, num(1), 10, 0);
    assert!(cache.is_warmed_up_at(1, 60 * SEC));
    assert!(cache.record_fingerprint_at(1, 7, 60 * SEC));
    assert!(!cache.is_warmed_up_at(1, 60 * SEC + 1));
    assert!(!cache.record_fingerprint_at(1, 7, 61 * SEC));
    assert_eq!(cache.stats().expirations, 1);
    assert_eq!(cache.stats().current_size, 0);
}

#[test]
fn clearing_forgets_everything_but_the_counters() {
    let mut cache = ResponseCache::new(60, 10, 1024).with_warmup(2, Duration::from_secs(180));
    cache.put_at(1, num(1), 10, 0);
    assert_eq!(cache.get_at(1, 0), Some(num(1)));
    assert!(!cache.record_fingerprint_at(2, 7, 0));
    cache.clear();
    assert_eq!(cache.get_at(1, 0), None);
    assert!(!cache.record_fingerprint_at(2, 7, 0));
    let stats = cache.stats();
    assert_eq!((stats.hits, stats.misses, stats.stores), (1, 1, 1));
    assert_eq!(stats.current_size, 0);
    assert_eq!(stats.ttl_secs, 60);
    assert_eq!(stats.min_hit_count, 2);
}

#[test]
fn clock_counts_nanoseconds_from_its_start() {
    let before = Instant::now();
    let clock = Clock::start();
    let after = Instant::now();
    assert_eq!(clock.reading(before), 0);
    let shown = clock.reading(after);
    assert!(shown <= after.duration_since(before).as_nanos());
    assert_eq!(clock.reading(after + Duration::from_secs(5)), shown + 5 * SEC);
    assert_eq!(clock.reading(after + Duration::from_millis(7)), shown + 7 * MS);
    assert!(clock.now() >= shown);
}

#[test]
fn clock_goes_on() {
    let cache = ResponseCache::new(60, 10, 1024);
    let a = cache.now();
    let b = cache.now();
    assert!(a <= b);
    assert!(b < 3600 * SEC);
    assert!(cache.can_count());
}

#[test]
fn other_keys_do_not_interfere() {
    let mut cache = ResponseCache::new(60, 2, 1024).with_warmup(2, Duration::from_secs(180));
    assert!(!cache.record_fingerprint_at(1, 7, 0));
    assert!(!cache.record_fingerprint_at(2, 8, 0));
    cache.put_at(3, num(3), 10, 0);
    cache.put_at(4, num(4), 10, 0);
    cache.put_at(5, num(5), 10, 0);
    assert_eq!(cache.get_at(3, 0), None);
    assert_eq!(cache.get_at(5, 0), Some(num(5)));
    assert!(cache.record_fingerprint_at(1, 7, 180 * SEC));
}

#[test]
fn while_there_is_room_nothing_leaves() {
    let mut cache = ResponseCache::new(60, 3, 1024);
    for key in 1..4 {
        cache.put_at(key, num(key), 10, 0);
    }
    for key in 1..4 {
        assert_eq!(cache.get_at(key, 0), Some(num(key)));
    }
    assert_eq!(cache.stats().evictions, 0);
    assert_eq!(cache.stats().stores, 3);
}

#[test]
fn warmed_up_key_stays_so_for_its_window() {
    let mut cache = ResponseCache::new(60, 10, 1024).with_warmup(2, Duration::from_secs(180));
    assert!(!cache.record_fingerprint_at(1, 7, 0));
    assert!(cache.record_fingerprint_at(1, 7, 0));
    assert!(cache.record_fingerprint_at(1, 8, 180 * SEC));
    assert!(!cache.record_fingerprint_at(1, 8, 180 * SEC + 1));
}

#[test]
fn another_response_starts_a_new_window() {
    let mut cache = ResponseCache::new(60, 10, 1024).with_warmup(2, Duration::from_secs(180));
    assert!(!cache.record_fingerprint_at(1, 7, 0));
    assert!(!cache.record_fingerprint_at(1, 8, 100 * SEC));
    assert!(cache.record_fingerprint_at(1, 8, 280 * SEC));
}
