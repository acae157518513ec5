//! Verified core of a proxy that converts between streamed and plain chat completions, with a
//! cache of responses.

pub mod cache;
pub mod cache_laws;
pub mod cache_model;
pub mod canonical;
pub mod chat;
pub mod clock;
pub mod collect;
pub mod config;
pub mod content_laws;
pub mod decimal;
pub mod digest;
pub mod exchange;
pub mod forward;
pub mod gate;
pub mod history;
pub mod ids;
pub mod interop;
pub mod json;
pub mod key;
pub mod lines;
pub mod mask;
pub mod number;
pub mod plain_cache;
pub mod plain_calls;
pub mod plain_chat;
pub mod plain_content;
pub mod plain_stream;
pub mod sorting;
pub mod text;
pub mod tools;
pub mod upstream;
pub mod usage;
