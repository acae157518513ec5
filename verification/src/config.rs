//! Configuration from environment variables.

use vstd::prelude::*;
use vstd::string::*;
use vstd::utf8::*;

use crate::decimal::{decimal, parse_decimal};
use crate::text::str_eq;

verus! {

/// What `str::to_lowercase` makes of a text.
pub uninterp spec fn lowercase_of(text: Seq<char>) -> Seq<char>;

/// A character with `A` to `Z` in lower case.
pub open spec fn ascii_lower(c: char) -> char {
    if 'A' <= c <= 'Z' {
        (c as u32 + 32) as char
    } else {
        c
    }
}

/// `str::to_lowercase`. On ASCII text it is the lower case of each letter; of other text nothing
/// is stated but that the result depends on the text alone.
pub assume_specification[ str::to_lowercase ](text: &str) -> (r: String)
    ensures
        r@ == lowercase_of(text@),
        is_ascii_chars(text@) ==> r@ == text@.map_values(|c: char| ascii_lower(c)),
;

/// The values of the environment variables, as far as they are set.
pub struct EnvVars {
    pub upstream_url: Option<String>,
    pub timeout: Option<String>,
    pub debug: Option<String>,
    pub port: Option<String>,
    pub fix_tool_call_name: Option<String>,
    pub cache_enabled: Option<String>,
    pub cache_ttl_secs: Option<String>,
    pub cache_max_entries: Option<String>,
    pub cache_max_request_bytes: Option<String>,
    /// The former name of `CACHE_MAX_REQUEST_BYTES`.
    pub cache_max_response_bytes: Option<String>,
    pub cache_min_hit_count: Option<String>,
    pub cache_warmup_window_secs: Option<String>,
}

/// The configuration.
pub struct Config {
    pub upstream_url: String,
    pub timeout_secs: u64,
    pub debug: bool,
    pub port: u16,
    pub fix_tool_call_name: bool,
    /// Whether responses are cached.
    pub cache_enabled: bool,
    /// How long a cached response can be served, in seconds.
    pub cache_ttl_secs: u64,
    /// How many responses are cached.
    pub cache_max_entries: usize,
    /// The size of the largest request whose response is cached.
    pub cache_max_request_bytes: usize,
    /// How many times the same response has to come back before it is served from the cache; 0
    /// for at once.
    pub cache_min_hit_count: u32,
    /// Within how many seconds it has to come back.
    pub cache_warmup_window_secs: u64,
}

/// The number that a variable gives, or `default` where it is not set or is no number up to
/// `max`.
pub open spec fn number_or(var: Option<String>, max: int, default: int) -> int {
    match var {
        Some(text) => match decimal(text@, max) {
            Some(n) => n,
            None => default,
        },
        None => default,
    }
}

/// Whether a variable is set to `word`, in upper or lower case.
pub open spec fn says(var: Option<String>, word: Seq<char>) -> bool {
    var is Some && lowercase_of(var->0@) == word
}

/// The number that a variable gives, or `default`.
fn read_number(var: &Option<String>, max: u64, default: u64) -> (r: u64)
    requires
        default <= max,
    ensures
        r == number_or(*var, max as int, default as int),
        r <= max,
{
    match var {
        Some(text) => match parse_decimal(text.as_str(), max) {
            Some(n) => n,
            None => default,
        },
        None => default,
    }
}

/// Whether a variable is set to `word`, in upper or lower case.
fn read_word(var: &Option<String>, word: &str) -> (r: bool)
    ensures
        r == says(*var, word@),
{
    match var {
        Some(text) => {
            let lower = text.as_str().to_lowercase();
            str_eq(lower.as_str(), word)
        },
        None => false,
    }
}

impl Config {
    /// The configuration that the environment asks for. A variable that is not set, or that does
    /// not hold what it should, leaves the default.
    pub fn from_env(vars: EnvVars) -> (r: Config)
        ensures
            r.upstream_url@ == (match vars.upstream_url {
                Some(url) => url@,
                None => "http://127.0.0.1:8317"@,
            }),
            r.timeout_secs == number_or(vars.timeout, u64::MAX as int, 600),
            r.debug == (vars.debug is None || says(vars.debug, "true"@)),
            r.port == number_or(vars.port, u16::MAX as int, 18318),
            r.fix_tool_call_name == !says(vars.fix_tool_call_name, "false"@),
            r.cache_enabled == says(vars.cache_enabled, "true"@),
            r.cache_ttl_secs == number_or(vars.cache_ttl_secs, u64::MAX as int, 300),
            r.cache_max_entries == number_or(vars.cache_max_entries, usize::MAX as int, 100),
            r.cache_max_request_bytes == number_or(
                if vars.cache_max_request_bytes is Some {
                    vars.cache_max_request_bytes
                } else {
                    vars.cache_max_response_bytes
                },
                usize::MAX as int,
                102_400,
            ),
            r.cache_min_hit_count == number_or(vars.cache_min_hit_count, u32::MAX as int, 3),
            r.cache_warmup_window_secs == number_or(
                vars.cache_warmup_window_secs,
                u64::MAX as int,
                180,
            ),
    {
        let max_request_bytes = match vars.cache_max_request_bytes {
            Some(text) => Some(text),
            None => vars.cache_max_response_bytes,
        };
        Config {
            upstream_url: match vars.upstream_url {
                Some(url) => url,
                None => "http://127.0.0.1:8317".to_owned(),
            },
            timeout_secs: read_number(&vars.timeout, u64::MAX, 600),
            debug: vars.debug.is_none() || read_word(&vars.debug, "true"),
            port: read_number(&vars.port, u16::MAX as u64, 18318) as u16,
            fix_tool_call_name: !read_word(&vars.fix_tool_call_name, "false"),
            cache_enabled: read_word(&vars.cache_enabled, "true"),
            cache_ttl_secs: read_number(&vars.cache_ttl_secs, u64::MAX, 300),
            cache_max_entries: read_number(&vars.cache_max_entries, usize::MAX as u64, 100)
                as usize,
            cache_max_request_bytes: read_number(
                &max_request_bytes,
                usize::MAX as u64,
                102_400,
            ) as usize,
            cache_min_hit_count: read_number(&vars.cache_min_hit_count, u32::MAX as u64, 3) as u32,
            cache_warmup_window_secs: read_number(&vars.cache_warmup_window_secs, u64::MAX, 180),
        }
    }
}

} // verus!
