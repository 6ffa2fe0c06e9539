//! The layout of the event store: the keys that hold block events, clients and
//! pauses, the index ranges of a page, the cut-offs of a sweep, and the whole
//! seconds in which times are stored.

use vstd::prelude::*;
use crate::model::{is_instant, max_instant, min_instant, Timestamp, NANOS_PER_SEC};
use crate::text::push_all;

verus! {

/// The sorted set of clients, scored by the time each was last seen.
pub const CLIENTS_KEY: &'static str = "clients";

/// The key of the global pause.
pub const GLOBAL_PAUSE_KEY: &'static str = "pause#global";

/// The key of the sorted set of names blocked for `client`.
pub open spec fn spec_blocked_key(client: Seq<char>) -> Seq<char> {
    "blocked#"@ + client
}

/// The key of the sorted set of names blocked for `client` (by address text).
pub fn blocked_key(client: &str) -> (r: String)
    ensures
        r@ == spec_blocked_key(client@),
{
    let mut r = String::new();
    push_all(&mut r, "blocked#");
    push_all(&mut r, client);
    r
}

/// The key of the pause of `client`.
pub open spec fn spec_client_pause_key(client: Seq<char>) -> Seq<char> {
    "pause#"@ + client
}

/// The key of the pause of `client` (by address text).
pub fn client_pause_key(client: &str) -> (r: String)
    ensures
        r@ == spec_client_pause_key(client@),
{
    let mut r = String::new();
    push_all(&mut r, "pause#");
    push_all(&mut r, client);
    r
}

/// The first and last rank of a page of `limit` entries that starts at `offset`
/// (both ends included), as the store's range commands take them.
pub fn page_range(offset: usize, limit: usize) -> (r: (isize, isize))
    requires
        limit >= 1,
        offset + limit - 1 <= isize::MAX,
    ensures
        r.0 == offset,
        r.1 == offset + limit - 1,
{
    let stop = offset + limit - 1;
    (offset as isize, stop as isize)
}

/// The score below or at which a sweep at `now_secs` drops entries kept for
/// `ttl_secs` seconds.
pub fn sweep_cutoff(now_secs: i64, ttl_secs: i64) -> (r: i64)
    requires
        i64::MIN <= now_secs - ttl_secs <= i64::MAX,
    ensures
        r == now_secs - ttl_secs,
{
    now_secs - ttl_secs
}

/// The whole seconds since the epoch of `t`, rounded down.
pub open spec fn spec_timestamp_secs(t: int) -> int {
    (t - min_instant()) / NANOS_PER_SEC as int + min_instant() / NANOS_PER_SEC as int
}

/// The whole seconds since the epoch of `t`, rounded down: what the store keeps of a
/// time.
pub fn timestamp_secs(t: Timestamp) -> (r: i64)
    requires
        is_instant(t as int),
    ensures
        r == spec_timestamp_secs(t as int),
        r * NANOS_PER_SEC <= t < r * NANOS_PER_SEC + NANOS_PER_SEC,
{
    let shifted: i128 = t + 8334601315200000000000;
    let q: i128 = shifted / NANOS_PER_SEC;
    assert(min_instant() / NANOS_PER_SEC as int == -8334601315200);
    assert(q * NANOS_PER_SEC <= shifted < q * NANOS_PER_SEC + NANOS_PER_SEC) by (nonlinear_arith)
        requires
            q == shifted / NANOS_PER_SEC,
            shifted >= 0,
    ;
    assert(q <= max_instant() - min_instant()) by (nonlinear_arith)
        requires
            q == shifted / NANOS_PER_SEC,
            0 <= shifted <= max_instant() - min_instant(),
    ;
    (q - 8334601315200) as i64
}

/// The time `secs` whole seconds after the epoch, when the calendar can show it.
pub open spec fn spec_from_secs(secs: int) -> Option<Timestamp> {
    if is_instant(secs * NANOS_PER_SEC) {
        Some((secs * NANOS_PER_SEC) as Timestamp)
    } else {
        None
    }
}

/// The time `secs` whole seconds after the epoch; `None` beyond the calendar's range.
pub fn from_secs(secs: i64) -> (r: Option<Timestamp>)
    ensures
        r == spec_from_secs(secs as int),
{
    let t: i128 = secs as i128 * NANOS_PER_SEC;
    if -8334601315200000000000 <= t && t <= 8210266876799999999999 {
        Some(t)
    } else {
        None
    }
}

/// A time stored as whole seconds and read back is the same time when it fell on a
/// whole second: reading `secs` back and storing it again gives `secs`.
pub proof fn law_secs_roundtrip(secs: int)
    requires
        is_instant(secs * NANOS_PER_SEC),
    ensures
        spec_from_secs(secs) == Some((secs * NANOS_PER_SEC) as Timestamp),
        spec_timestamp_secs(secs * NANOS_PER_SEC) == secs,
{
    let m: int = 8334601315200;
    assert(min_instant() == -m * NANOS_PER_SEC);
    assert(min_instant() / NANOS_PER_SEC as int == -m);
    assert(secs * NANOS_PER_SEC - min_instant() == (secs + m) * NANOS_PER_SEC) by (nonlinear_arith)
        requires
            min_instant() == -m * NANOS_PER_SEC,
    ;
    assert(((secs + m) * NANOS_PER_SEC) / NANOS_PER_SEC as int == secs + m) by (nonlinear_arith);
}

} // verus!
