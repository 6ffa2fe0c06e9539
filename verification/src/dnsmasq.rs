//! Telling dnsmasq to reread its hosts: whether to, and the process id its pid
//! file names.

use vstd::prelude::*;
use crate::pauses::{parse_i64, spec_parse_i64};
use crate::text::{chars_of, string_from, trim, trimmed};

verus! {

/// How dnsmasq is told of a refresh.
pub struct DnsmasqConfig {
    /// Whether dnsmasq gets a hangup signal after a refresh.
    pub hup_after_refresh: bool,
    /// The file that holds dnsmasq's process id.
    pub pid_file: String,
}

/// What `i32::from_str` gives for a text.
pub open spec fn spec_parse_i32(s: Seq<char>) -> Option<i32> {
    match spec_parse_i64(s) {
        Some(n) => if i32::MIN <= n <= i32::MAX {
            Some(n as i32)
        } else {
            None
        },
        None => None,
    }
}

/// The process id a pid file holds: its text, trimmed, read as an `i32`.
pub fn pid_from_text(text: &str) -> (r: Option<i32>)
    ensures
        r == spec_parse_i32(trim(text@)),
{
    let t = string_from(&trimmed(&chars_of(text)));
    match parse_i64(t.as_str()) {
        Some(n) => if i32::MIN as i64 <= n && n <= i32::MAX as i64 {
            Some(n as i32)
        } else {
            None
        },
        None => None,
    }
}

} // verus!
