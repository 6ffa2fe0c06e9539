//! The lines of a dnsmasq hosts file: a blocked host answers nothing, an allowed
//! one is sent on to the upstream servers.

use vstd::prelude::*;
use crate::text::push_all;

verus! {

/// Where the lines for blocked and allowed hosts are written.
pub trait HostsWriter {
    /// Writes the line that blocks `hostname`.
    fn write_blocked(&mut self, hostname: &str) -> Result<(), String>;

    /// Writes the line that allows `hostname`.
    fn write_allowed(&mut self, hostname: &str) -> Result<(), String>;
}

/// The line that blocks `hostname`: `server=/hostname/`.
pub open spec fn spec_blocked_line(hostname: Seq<char>) -> Seq<char> {
    "server=/"@ + hostname + "/\n"@
}

/// The line that allows `hostname`: `server=/hostname/#`.
pub open spec fn spec_allowed_line(hostname: Seq<char>) -> Seq<char> {
    "server=/"@ + hostname + "/#\n"@
}

/// The line that blocks `hostname`.
pub fn blocked_line(hostname: &str) -> (r: String)
    ensures
        r@ == spec_blocked_line(hostname@),
{
    let mut s = String::new();
    push_all(&mut s, "server=/");
    push_all(&mut s, hostname);
    push_all(&mut s, "/\n");
    s
}

/// The line that allows `hostname`.
pub fn allowed_line(hostname: &str) -> (r: String)
    ensures
        r@ == spec_allowed_line(hostname@),
{
    let mut s = String::new();
    push_all(&mut s, "server=/");
    push_all(&mut s, hostname);
    push_all(&mut s, "/#\n");
    s
}

} // verus!
