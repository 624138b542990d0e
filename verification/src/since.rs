//! The `since` file: a stored watermark that seeds the next incremental
//! walk and is rewritten — only after a successful walk — to now minus a
//! configured offset.

use vstd::prelude::*;
use crate::retrieve;
use crate::timestamp;

verus! {

/// Read a watermark file: its first whitespace-delimited token as an
/// RFC-3339 timestamp.
pub fn parse_since_file(bytes: &[u8]) -> (r: Option<i64>)
    ensures
        r.is_some() == timestamp::rfc3339_ok(retrieve::first_token(bytes@)),
        timestamp::rfc3339_ok(retrieve::first_token(bytes@)) ==> r == Some(
            timestamp::rfc3339_value(retrieve::first_token(bytes@)) as i64,
        ),
{
    let token = retrieve::first_token_x(bytes);
    timestamp::parse_rfc3339(token.as_slice())
}

/// The next watermark: now, backed off by the configured offset.
pub fn next_watermark(now: i64, offset: i64) -> (r: i64)
    requires
        0 <= offset <= now,
    ensures
        r == now - offset,
{
    now - offset
}

/// Render a watermark for storage; what is written parses back to the
/// same instant.
pub fn render_since_file(t: u64) -> (r: Vec<u8>)
    requires
        t < timestamp::epoch_end(),
    ensures
        timestamp::rfc3339_ok(r@),
        timestamp::rfc3339_value(r@) == t,
{
    timestamp::format_rfc3339(t)
}

} // verus!
