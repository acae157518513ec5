//! Identifiers, delays and time stamps: what chance and the clock decide.

use vstd::prelude::*;
use vstd::string::*;

verus! {

/// Calls `uuid::Uuid::new_v4` and writes the result out in its hyphenated form, which has 36
/// characters. Which ones they are is left to chance.
#[verifier::external_body]
fn new_uuid() -> (r: String)
    ensures
        r@.len() == 36,
{
    uuid::Uuid::new_v4().to_string()
}

/// Calls `rand::Rng::gen_range` on the generator of the thread. Any number of the range can come
/// up.
#[verifier::external_body]
fn pick(low: u64, high: u64) -> (r: u64)
    requires
        low <= high,
    ensures
        low <= r <= high,
{
    rand::Rng::gen_range(&mut rand::thread_rng(), low..=high)
}

/// Calls `chrono::Utc::now` and reads the seconds since 1970 off the result. Nothing is known of
/// the time.
#[verifier::external_body]
pub(crate) fn unix_seconds() -> (r: i64) {
    chrono::Utc::now().timestamp()
}

/// The identifier of a request: the first 8 characters of a UUID.
pub fn short_id(uuid: &str) -> (r: String)
    requires
        uuid@.len() >= 8,
    ensures
        r@ == uuid@.take(8),
{
    let r = uuid.substring_char(0, 8).to_owned();
    assert(r@ =~= uuid@.take(8));
    r
}

/// A fresh identifier for a request.
pub fn request_id() -> (r: String)
    ensures
        r@.len() == 8,
{
    let uuid = new_uuid();
    short_id(uuid.as_str())
}

/// The identifier of an answer.
pub fn answer_id(uuid: &str) -> (r: String)
    ensures
        r@ == "chatcmpl-"@ + uuid@,
{
    let mut id = "chatcmpl-".to_owned();
    id.append(uuid);
    id
}

/// A fresh identifier for an answer.
pub fn completion_id() -> (r: String)
    ensures
        r@.len() == "chatcmpl-"@.len() + 36,
        r@.take("chatcmpl-"@.len() as int) == "chatcmpl-"@,
{
    let uuid = new_uuid();
    let r = answer_id(uuid.as_str());
    assert(r@.take("chatcmpl-"@.len() as int) =~= "chatcmpl-"@);
    r
}

/// How long a response from the cache is held back, in milliseconds.
pub fn simulated_delay_ms() -> (r: u64)
    ensures
        300 <= r <= 800,
{
    pick(300, 800)
}

} // verus!
