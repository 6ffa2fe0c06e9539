//! Pauses of blocking, for everyone or for one client: when a pause asked for ends,
//! whether one is in force, and which clients are paused.

use vstd::prelude::*;
use crate::api::ApiError;
use crate::model::{is_instant, Timestamp, NANOS_PER_SEC};
use crate::text::chars_of;

verus! {

/// A pause asked for this many seconds or more (over a thousand years) never ends.
pub const PERMANENT_PAUSE_SECS: i64 = 31536000000;

/// The most seconds a time span can hold (`i64::MAX / 1000`).
pub const MAX_SPAN_SECS: i64 = 9223372036854775;

/// The end of a pause that never ends: 9999-01-01T00:00:00Z.
pub const PERMANENT_PAUSE_END: Timestamp = 253370764800000000000;

/// When a pause asked for at `now` for `duration_seconds` ends: at the start of year
/// 9999 for a permanent pause, else that many seconds after `now`.
pub open spec fn spec_pause_expiry(now: int, duration_seconds: int) -> int {
    if duration_seconds >= PERMANENT_PAUSE_SECS {
        PERMANENT_PAUSE_END as int
    } else {
        now + duration_seconds * NANOS_PER_SEC
    }
}

/// When a pause asked for at `now` for `duration_seconds` ends. The span must be one
/// a time span can hold, and its end one the calendar can show.
pub fn pause_expiry(now: Timestamp, duration_seconds: i64) -> (r: Timestamp)
    requires
        -MAX_SPAN_SECS <= duration_seconds,
        duration_seconds < PERMANENT_PAUSE_SECS ==> is_instant(
            now + duration_seconds * NANOS_PER_SEC,
        ),
    ensures
        r == spec_pause_expiry(now as int, duration_seconds as int),
{
    if duration_seconds >= PERMANENT_PAUSE_SECS {
        PERMANENT_PAUSE_END
    } else {
        let span: i128 = duration_seconds as i128 * NANOS_PER_SEC;
        now + span
    }
}

/// A pause is in force when it ends after `now`.
pub open spec fn spec_pause_active(expires: Option<Timestamp>, now: Timestamp) -> bool {
    match expires {
        Some(e) => e > now,
        None => false,
    }
}

/// Whether a pause that ends at `expires` (if there is one) is in force at `now`.
pub fn pause_active(expires: Option<Timestamp>, now: Timestamp) -> (r: bool)
    ensures
        r == spec_pause_active(expires, now),
{
    match expires {
        Some(e) => e > now,
        None => false,
    }
}

/// A pause started at `now` for a positive number of seconds is in force at `now`;
/// so is a permanent one, until its end.
pub proof fn law_started_pause_in_force(now: Timestamp, duration_seconds: i64)
    requires
        duration_seconds > 0,
        duration_seconds < PERMANENT_PAUSE_SECS ==> is_instant(now + duration_seconds * NANOS_PER_SEC),
        duration_seconds >= PERMANENT_PAUSE_SECS ==> now < PERMANENT_PAUSE_END,
    ensures
        spec_pause_active(
            Some(spec_pause_expiry(now as int, duration_seconds as int) as Timestamp),
            now,
        ),
{
}

/// The global pause as a page shows it.
pub struct GlobalPauseInfo {
    pub is_paused: bool,
    pub expires_at: Option<Timestamp>,
}

/// The pause of one client as a page shows it.
pub struct ClientPauseInfo {
    pub is_paused: bool,
    pub expires_at: Option<Timestamp>,
    pub ip: String,
}

/// The global pause that ends at `expires` (if there is one), seen at `now`.
pub fn global_pause_info(expires: Option<Timestamp>, now: Timestamp) -> (r: GlobalPauseInfo)
    ensures
        r.is_paused == spec_pause_active(expires, now),
        r.expires_at == expires,
{
    GlobalPauseInfo { is_paused: pause_active(expires, now), expires_at: expires }
}

/// The pause of client `ip` that ends at `expires` (if there is one), seen at `now`.
pub fn client_pause_info(ip: String, expires: Option<Timestamp>, now: Timestamp) -> (r:
    ClientPauseInfo)
    ensures
        r.is_paused == spec_pause_active(expires, now),
        r.expires_at == expires,
        r.ip == ip,
{
    ClientPauseInfo { is_paused: pause_active(expires, now), expires_at: expires, ip }
}

/// The clients of `pauses` whose pause is in force at `now`, in order.
pub open spec fn paused_of(pauses: Seq<(String, Option<Timestamp>)>, now: Timestamp) -> Seq<
    Seq<char>,
>
    decreases pauses.len(),
{
    if pauses.len() == 0 {
        Seq::empty()
    } else {
        let rest = paused_of(pauses.drop_last(), now);
        if spec_pause_active(pauses.last().1, now) {
            rest.push(pauses.last().0@)
        } else {
            rest
        }
    }
}

/// The clients (by address text) whose pause is in force at `now`, from the end of
/// each client's pause, if it has one.
pub fn paused_clients(pauses: &Vec<(String, Option<Timestamp>)>, now: Timestamp) -> (r: Vec<String>)
    ensures
        crate::text::views(r@) == paused_of(pauses@, now),
{
    let mut r: Vec<String> = Vec::new();
    let mut i: usize = 0;
    while i < pauses.len()
        invariant
            i <= pauses.len(),
            crate::text::views(r@) == paused_of(pauses@.take(i as int), now),
        decreases pauses.len() - i,
    {
        assert(pauses@.take(i + 1).drop_last() =~= pauses@.take(i as int));
        assert(pauses@.take(i + 1).last() == pauses@[i as int]);
        if pause_active(pauses[i].1, now) {
            r.push(pauses[i].0.clone());
        }
        i = i + 1;
        assert(crate::text::views(r@) =~= paused_of(pauses@.take(i as int), now));
    }
    assert(pauses@.take(pauses.len() as int) =~= pauses@);
    r
}

/// An ASCII decimal digit.
pub open spec fn is_digit(c: char) -> bool {
    '0' <= c <= '9'
}

/// The value of a text of decimal digits.
pub open spec fn digits_value(ds: Seq<char>) -> nat
    decreases ds.len(),
{
    if ds.len() == 0 {
        0
    } else {
        digits_value(ds.drop_last()) * 10 + (ds.last() as nat - '0' as nat) as nat
    }
}

/// Whether a text is one or more decimal digits.
pub open spec fn all_digits(ds: Seq<char>) -> bool {
    ds.len() > 0 && forall|i: int| 0 <= i < ds.len() ==> is_digit(#[trigger] ds[i])
}

/// What `i64::from_str` gives for a text: an optional `+` or `-`, then one or more
/// decimal digits, whose signed value is an `i64`.
pub open spec fn spec_parse_i64(s: Seq<char>) -> Option<i64> {
    let neg = s.len() > 0 && s[0] == '-';
    let ds = if s.len() > 0 && (s[0] == '-' || s[0] == '+') {
        s.drop_first()
    } else {
        s
    };
    if !all_digits(ds) {
        None
    } else if neg {
        if digits_value(ds) <= 9223372036854775808 {
            Some((-digits_value(ds)) as i64)
        } else {
            None
        }
    } else if digits_value(ds) <= 9223372036854775807 {
        Some(digits_value(ds) as i64)
    } else {
        None
    }
}

proof fn lemma_digits_value_grows(ds: Seq<char>, i: int)
    requires
        0 <= i <= ds.len(),
    ensures
        digits_value(ds.take(i)) <= digits_value(ds),
    decreases ds.len() - i,
{
    if i < ds.len() {
        lemma_digits_value_grows(ds, i + 1);
        assert(ds.take(i + 1).drop_last() =~= ds.take(i));
    } else {
        assert(ds.take(i) =~= ds);
    }
}

/// Reads a signed decimal integer the way `i64::from_str` does.
pub fn parse_i64(s: &str) -> (r: Option<i64>)
    ensures
        r == spec_parse_i64(s@),
{
    let v = chars_of(s);
    let neg = v.len() > 0 && v[0] == '-';
    let start: usize = if v.len() > 0 && (v[0] == '-' || v[0] == '+') {
        1
    } else {
        0
    };
    let ghost ds = v@.subrange(start as int, v.len() as int);
    assert(ds == if v@.len() > 0 && (v@[0] == '-' || v@[0] == '+') {
        v@.drop_first()
    } else {
        v@
    });
    if start >= v.len() {
        return None;
    }
    let mut value: i128 = 0;
    let mut i: usize = start;
    while i < v.len()
        invariant
            start <= i <= v.len(),
            v@ == s@,
            ds == v@.subrange(start as int, v.len() as int),
            ds == if v@.len() > 0 && (v@[0] == '-' || v@[0] == '+') {
                v@.drop_first()
            } else {
                v@
            },
            neg == (v@.len() > 0 && v@[0] == '-'),
            value == digits_value(ds.take(i - start)),
            value <= 9223372036854775808,
            forall|k: int| 0 <= k < i - start ==> is_digit(#[trigger] ds[k]),
        decreases v.len() - i,
    {
        let c = v[i];
        assert(ds[i - start] == c);
        if !('0' <= c && c <= '9') {
            assert(!is_digit(ds[i - start]));
            return None;
        }
        let d: i128 = (c as u32 - '0' as u32) as i128;
        assert(ds.take(i - start + 1).drop_last() =~= ds.take(i - start));
        assert(ds.take(i - start + 1).last() == c);
        value = value * 10 + d;
        assert(value == digits_value(ds.take(i - start + 1)));
        i = i + 1;
        if value > 9223372036854775808 {
            proof {
                lemma_digits_value_grows(ds, i - start);
            }
            assert(digits_value(ds) > 9223372036854775808);
            return None;
        }
    }
    assert(ds.take(ds.len() as int) =~= ds);
    if neg {
        Some((-value) as i64)
    } else if value <= 9223372036854775807 {
        Some(value as i64)
    } else {
        None
    }
}

/// Reads the length of a pause from a form field; text that is no integer is refused.
pub fn parse_duration_seconds(text: &str) -> (r: Result<i64, ApiError>)
    ensures
        match spec_parse_i64(text@) {
            Some(n) => r matches Ok(m) && m == n,
            None => r matches Err(ApiError::BadRequest(m)) && m@ == "Invalid duration"@,
        },
{
    match parse_i64(text) {
        Some(n) => Ok(n),
        None => Err(ApiError::BadRequest("Invalid duration".to_string())),
    }
}

} // verus!
