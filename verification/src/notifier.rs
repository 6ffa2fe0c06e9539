//! Blocklist change notifications that daemons sharing an event store send each other:
//! their payload text and the framing that tags each with its sender.

use vstd::prelude::*;
use crate::text::{chars_of, push_all, push_char, string_from, sub_chars};

verus! {

broadcast use vstd::string::group_string_axioms;

/// The channel on which daemons sharing an event store announce blocklist changes.
pub const CHANNEL: &'static str = "blackholed:blocklist-reload";

/// A change that other daemons must apply to their blocklist.
#[derive(Debug, PartialEq, Eq)]
pub enum BlocklistNotification {
    /// Reload everything.
    Full,
    /// Reload one host.
    Host(String),
    /// The global pause was turned on or off.
    GlobalPause(bool),
    /// The pause of one client (by address text) was turned on or off.
    ClientPause(String, bool),
}

/// The view of a notification.
pub enum NotificationView {
    Full,
    Host(Seq<char>),
    GlobalPause(bool),
    ClientPause(Seq<char>, bool),
}

impl View for BlocklistNotification {
    type V = NotificationView;

    open spec fn view(&self) -> NotificationView {
        match self {
            BlocklistNotification::Full => NotificationView::Full,
            BlocklistNotification::Host(n) => NotificationView::Host(n@),
            BlocklistNotification::GlobalPause(b) => NotificationView::GlobalPause(*b),
            BlocklistNotification::ClientPause(ip, b) => NotificationView::ClientPause(ip@, *b),
        }
    }
}

pub open spec fn full_text() -> Seq<char> {
    seq!['f', 'u', 'l', 'l']
}

pub open spec fn host_prefix() -> Seq<char> {
    seq!['h', 'o', 's', 't', ':']
}

pub open spec fn global_pause_prefix() -> Seq<char> {
    seq!['g', 'l', 'o', 'b', 'a', 'l', '-', 'p', 'a', 'u', 's', 'e', ':']
}

pub open spec fn client_pause_prefix() -> Seq<char> {
    seq!['c', 'l', 'i', 'e', 'n', 't', '-', 'p', 'a', 'u', 's', 'e', ':']
}

/// `true` or `false`, as `bool` displays.
pub open spec fn bool_text(b: bool) -> Seq<char> {
    if b {
        seq!['t', 'r', 'u', 'e']
    } else {
        seq!['f', 'a', 'l', 's', 'e']
    }
}

/// What `bool::from_str` gives: exactly `true` or `false`.
pub open spec fn spec_parse_bool(s: Seq<char>) -> Option<bool> {
    if s == bool_text(true) {
        Some(true)
    } else if s == bool_text(false) {
        Some(false)
    } else {
        None
    }
}

/// The payload text of a notification.
pub open spec fn spec_to_payload(n: NotificationView) -> Seq<char> {
    match n {
        NotificationView::Full => full_text(),
        NotificationView::Host(name) => host_prefix() + name,
        NotificationView::GlobalPause(b) => global_pause_prefix() + bool_text(b),
        NotificationView::ClientPause(ip, b) => client_pause_prefix() + ip + seq![':'] + bool_text(
            b,
        ),
    }
}

/// Whether `s` starts with `p`.
pub open spec fn has_prefix(s: Seq<char>, p: Seq<char>) -> bool {
    s.len() >= p.len() && s.subrange(0, p.len() as int) == p
}

/// The last index of `c` in `s`, if any.
pub open spec fn last_index_of(s: Seq<char>, c: char) -> Option<int> {
    if exists|i: int| 0 <= i < s.len() && s[i] == c {
        Some(choose|i: int| 0 <= i < s.len() && s[i] == c && forall|j: int| i < j < s.len() ==> s[j] != c)
    } else {
        None
    }
}

/// Whether `IpAddr::from_str` reads the text as an IPv4 or IPv6 address.
pub uninterp spec fn spec_is_ip_address(text: Seq<char>) -> bool;

/// Reads `text` with `IpAddr::from_str` (of `core::net`, the address values that
/// `std::net` re-exports) and tells whether it is an address. Claimed: the result is
/// `spec_is_ip_address(text)`; which texts the address grammar accepts is left
/// unsaid.
#[verifier::external_body]
fn is_ip_address(text: &str) -> (r: bool)
    ensures
        r == spec_is_ip_address(text@),
{
    text.parse::<core::net::IpAddr>().is_ok()
}

/// The notification a payload text names, if any. A client pause payload names the
/// client by the text before its last `:`, which must read as an IP address.
pub open spec fn spec_from_payload(p: Seq<char>) -> Option<NotificationView> {
    if p == full_text() {
        Some(NotificationView::Full)
    } else if has_prefix(p, host_prefix()) {
        Some(NotificationView::Host(p.subrange(host_prefix().len() as int, p.len() as int)))
    } else if has_prefix(p, global_pause_prefix()) {
        match spec_parse_bool(p.subrange(global_pause_prefix().len() as int, p.len() as int)) {
            Some(b) => Some(NotificationView::GlobalPause(b)),
            None => None,
        }
    } else if has_prefix(p, client_pause_prefix()) {
        let rest = p.subrange(client_pause_prefix().len() as int, p.len() as int);
        match last_index_of(rest, ':') {
            None => None,
            Some(sep) => match spec_parse_bool(rest.subrange(sep + 1, rest.len() as int)) {
                Some(b) => if spec_is_ip_address(rest.subrange(0, sep)) {
                    Some(NotificationView::ClientPause(rest.subrange(0, sep), b))
                } else {
                    None
                },
                None => None,
            },
        }
    } else {
        None
    }
}

fn push_bool(s: &mut String, b: bool)
    ensures
        final(s)@ == old(s)@ + bool_text(b),
{
    proof {
        reveal_strlit("true");
        reveal_strlit("false");
    }
    if b {
        push_all(s, "true");
        assert(final(s)@ =~= old(s)@ + bool_text(b));
    } else {
        push_all(s, "false");
        assert(final(s)@ =~= old(s)@ + bool_text(b));
    }
}

impl BlocklistNotification {
    /// The payload text: `full`, `host:<name>`, `global-pause:<bool>` or
    /// `client-pause:<address>:<bool>`.
    pub fn to_payload(&self) -> (r: String)
        ensures
            r@ == spec_to_payload(self@),
    {
        proof {
            reveal_strlit("full");
            reveal_strlit("host:");
            reveal_strlit("global-pause:");
            reveal_strlit("client-pause:");
        }
        let mut s = String::new();
        match self {
            BlocklistNotification::Full => {
                push_all(&mut s, "full");
                assert(s@ =~= full_text());
            },
            BlocklistNotification::Host(name) => {
                push_all(&mut s, "host:");
                push_all(&mut s, name.as_str());
                assert(s@ =~= host_prefix() + name@);
            },
            BlocklistNotification::GlobalPause(b) => {
                push_all(&mut s, "global-pause:");
                push_bool(&mut s, *b);
                assert(s@ =~= global_pause_prefix() + bool_text(*b));
            },
            BlocklistNotification::ClientPause(ip, b) => {
                push_all(&mut s, "client-pause:");
                push_all(&mut s, ip.as_str());
                push_char(&mut s, ':');
                push_bool(&mut s, *b);
                assert(s@ =~= client_pause_prefix() + ip@ + seq![':'] + bool_text(*b));
            },
        }
        s
    }
}


fn has_prefix_chars(v: &Vec<char>, p: &Vec<char>) -> (r: bool)
    ensures
        r == has_prefix(v@, p@),
{
    if v.len() < p.len() {
        return false;
    }
    let mut i: usize = 0;
    while i < p.len()
        invariant
            i <= p.len() <= v.len(),
            forall|j: int| 0 <= j < i ==> v@[j] == p@[j],
        decreases p.len() - i,
    {
        if v[i] != p[i] {
            assert(v@.subrange(0, p.len() as int)[i as int] != p@[i as int]);
            return false;
        }
        i = i + 1;
    }
    assert(v@.subrange(0, p.len() as int) =~= p@);
    true
}

fn rfind_char(v: &Vec<char>, c: char) -> (r: Option<usize>)
    ensures
        match r {
            Some(i) => i < v.len() && last_index_of(v@, c) == Some(i as int),
            None => last_index_of(v@, c) is None,
        },
{
    let mut i = v.len();
    while i > 0
        invariant
            i <= v.len(),
            forall|j: int| i <= j < v.len() ==> v@[j] != c,
        decreases i,
    {
        if v[i - 1] == c {
            let k = i - 1;
            proof {
                let s = v@;
                assert(exists|x: int| 0 <= x < s.len() && s[x] == c);
                let w = choose|x: int| 0 <= x < s.len() && s[x] == c && forall|j: int| x < j < s.len() ==> s[j] != c;
                assert(0 <= k < s.len() && s[k as int] == c && forall|j: int| k < j < s.len() ==> s[j] != c);
                if w != k {
                    if w < k {
                        assert(s[k as int] != c);
                    } else {
                        assert(s[w] != c);
                    }
                }
            }
            return Some(k);
        }
        i = i - 1;
    }
    None
}

fn parse_bool(v: &Vec<char>) -> (r: Option<bool>)
    ensures
        r == spec_parse_bool(v@),
{
    let t = v.len() == 4 && v[0] == 't' && v[1] == 'r' && v[2] == 'u' && v[3] == 'e';
    let f = v.len() == 5 && v[0] == 'f' && v[1] == 'a' && v[2] == 'l' && v[3] == 's' && v[4] == 'e';
    assert(t <==> v@ =~= bool_text(true));
    assert(f <==> v@ =~= bool_text(false));
    if t {
        Some(true)
    } else if f {
        Some(false)
    } else {
        None
    }
}

impl BlocklistNotification {
    /// The notification a payload names (see `spec_from_payload`); a client pause
    /// whose address text is no IP address names none.
    pub fn from_payload(payload: &str) -> (r: Option<BlocklistNotification>)
        ensures
            match r {
                Some(n) => spec_from_payload(payload@) == Some(n@),
                None => spec_from_payload(payload@) is None,
            },
    {
        proof {
            reveal_strlit("full");
            reveal_strlit("host:");
            reveal_strlit("global-pause:");
            reveal_strlit("client-pause:");
        }
        let v = chars_of(payload);
        let full = chars_of("full");
        let host = chars_of("host:");
        let global = chars_of("global-pause:");
        let client = chars_of("client-pause:");
        assert(full@ =~= full_text());
        assert(host@ =~= host_prefix());
        assert(global@ =~= global_pause_prefix());
        assert(client@ =~= client_pause_prefix());
        if v.len() == full.len() && has_prefix_chars(&v, &full) {
            assert(v@ =~= v@.subrange(0, full@.len() as int));
            return Some(BlocklistNotification::Full);
        }
        assert(v@ != full_text()) by {
            if v@ == full_text() {
                assert(v@.subrange(0, full@.len() as int) =~= v@);
            }
        }
        if has_prefix_chars(&v, &host) {
            let name = sub_chars(&v, host.len(), v.len());
            return Some(BlocklistNotification::Host(string_from(&name)));
        }
        if has_prefix_chars(&v, &global) {
            let rest = sub_chars(&v, global.len(), v.len());
            return match parse_bool(&rest) {
                Some(b) => Some(BlocklistNotification::GlobalPause(b)),
                None => None,
            };
        }
        if has_prefix_chars(&v, &client) {
            let rest = sub_chars(&v, client.len(), v.len());
            let sep = match rfind_char(&rest, ':') {
                Some(i) => i,
                None => {
                    return None;
                },
            };
            let active = match parse_bool(&sub_chars(&rest, sep + 1, rest.len())) {
                Some(b) => b,
                None => {
                    return None;
                },
            };
            let ip = string_from(&sub_chars(&rest, 0, sep));
            if !is_ip_address(ip.as_str()) {
                return None;
            }
            return Some(BlocklistNotification::ClientPause(ip, active));
        }
        None
    }
}

/// What a received message means to a daemon.
pub enum Received {
    /// The message has no `:` to end the sender's id.
    Malformed,
    /// The daemon sent it itself.
    Own,
    /// Another daemon sent this payload, which names no notification.
    Unknown(String),
    /// Another daemon sent this notification.
    Notify(BlocklistNotification),
}

/// The message that daemon `instance_id` sends for a notification: its id, `:`, the payload.
pub open spec fn spec_message(instance_id: Seq<char>, n: NotificationView) -> Seq<char> {
    instance_id + seq![':'] + spec_to_payload(n)
}

/// The message a daemon sends for `notification`.
pub fn message(instance_id: &str, notification: &BlocklistNotification) -> (r: String)
    ensures
        r@ == spec_message(instance_id@, notification@),
{
    let mut s = String::new();
    push_all(&mut s, instance_id);
    push_char(&mut s, ':');
    let payload = notification.to_payload();
    push_all(&mut s, payload.as_str());
    assert(s@ =~= instance_id@ + seq![':'] + spec_to_payload(notification@));
    s
}

/// The view of what a daemon makes of a message.
pub enum ReceivedView {
    Malformed,
    Own,
    /// The payload that another daemon sent.
    Foreign(Seq<char>),
}

/// What daemon `instance_id` makes of a raw message: its sender is the text before
/// the first `:` and its payload the text after it.
pub open spec fn spec_receive(raw: Seq<char>, instance_id: Seq<char>) -> ReceivedView {
    let i = crate::text::index_of(raw, ':');
    if i >= raw.len() {
        ReceivedView::Malformed
    } else if raw.subrange(0, i) == instance_id {
        ReceivedView::Own
    } else {
        ReceivedView::Foreign(raw.subrange(i + 1, raw.len() as int))
    }
}

/// What daemon `instance_id` makes of a raw message (see `spec_receive`).
pub fn receive(raw: &str, instance_id: &str) -> (r: Received)
    ensures
        match r {
            Received::Malformed => spec_receive(raw@, instance_id@) == ReceivedView::Malformed,
            Received::Own => spec_receive(raw@, instance_id@) == ReceivedView::Own,
            Received::Unknown(p) => spec_receive(raw@, instance_id@) == ReceivedView::Foreign(p@)
                && spec_from_payload(p@) is None,
            Received::Notify(n) => spec_receive(raw@, instance_id@) matches ReceivedView::Foreign(p)
                && spec_from_payload(p) == Some(n@),
        },
{
    let v = chars_of(raw);
    let i = crate::text::find_from(&v, ':', 0);
    if i >= v.len() {
        return Received::Malformed;
    }
    let sender = sub_chars(&v, 0, i);
    let me = chars_of(instance_id);
    if sender.len() == me.len() && has_prefix_chars(&sender, &me) {
        assert(sender@ =~= sender@.subrange(0, me@.len() as int));
        return Received::Own;
    }
    assert(sender@ != instance_id@) by {
        if sender@ == instance_id@ {
            assert(sender@.subrange(0, me@.len() as int) =~= sender@);
        }
    }
    let payload = string_from(&sub_chars(&v, i + 1, v.len()));
    match BlocklistNotification::from_payload(payload.as_str()) {
        Some(n) => Received::Notify(n),
        None => Received::Unknown(payload),
    }
}

/// The text before the first `:` of `s` is `s` itself when `s` holds no `:`.
proof fn lemma_index_of_absent(s: Seq<char>, t: Seq<char>)
    requires
        forall|j: int| 0 <= j < s.len() ==> s[j] != ':',
    ensures
        crate::text::index_of(s + t, ':') == s.len() + crate::text::index_of(t, ':'),
{
    lemma_next_index_shift(s, t, 0);
}

proof fn lemma_next_index_shift(s: Seq<char>, t: Seq<char>, from: int)
    requires
        0 <= from <= s.len(),
        forall|j: int| 0 <= j < s.len() ==> s[j] != ':',
    ensures
        crate::text::next_index_of(s + t, ':', from) == s.len() + crate::text::index_of(t, ':'),
    decreases s.len() + t.len() - from,
{
    if from < s.len() {
        assert((s + t)[from] == s[from]);
        lemma_next_index_shift(s, t, from + 1);
    } else {
        lemma_next_index_tail(s, t, 0);
    }
}

proof fn lemma_next_index_tail(s: Seq<char>, t: Seq<char>, k: int)
    requires
        0 <= k <= t.len(),
    ensures
        crate::text::next_index_of(s + t, ':', s.len() + k) == s.len() + crate::text::next_index_of(
            t,
            ':',
            k,
        ),
    decreases t.len() - k,
{
    if k < t.len() {
        assert((s + t)[s.len() + k] == t[k]);
        lemma_next_index_tail(s, t, k + 1);
    }
}

/// A message from a daemon whose id holds no `:` is ignored by that daemon and gives
/// every other daemon the payload it was sent with.
pub proof fn law_message_roundtrip(sender: Seq<char>, receiver: Seq<char>, n: NotificationView)
    requires
        forall|j: int| 0 <= j < sender.len() ==> sender[j] != ':',
    ensures
        spec_receive(spec_message(sender, n), receiver) == if sender == receiver {
            ReceivedView::Own
        } else {
            ReceivedView::Foreign(spec_to_payload(n))
        },
{
    let raw = spec_message(sender, n);
    let tail = seq![':'] + spec_to_payload(n);
    assert(raw =~= sender + tail);
    lemma_index_of_absent(sender, tail);
    assert(tail[0] == ':');
    assert(crate::text::index_of(tail, ':') == 0);
    assert(raw.subrange(0, sender.len() as int) =~= sender);
    assert(raw.subrange(sender.len() + 1int, raw.len() as int) =~= spec_to_payload(n));
    if raw.subrange(0, sender.len() as int) == receiver {
        assert(sender == receiver);
    }
}

} // verus!

verus! {

proof fn lemma_last_index_at(s: Seq<char>, c: char, k: int)
    requires
        0 <= k < s.len(),
        s[k] == c,
        forall|j: int| k < j < s.len() ==> s[j] != c,
    ensures
        last_index_of(s, c) == Some(k),
{
    assert(exists|i: int| 0 <= i < s.len() && s[i] == c);
    let w = choose|i: int|
        0 <= i < s.len() && s[i] == c && forall|j: int| i < j < s.len() ==> s[j] != c;
    assert(0 <= k < s.len() && s[k] == c && forall|j: int| k < j < s.len() ==> s[j] != c);
    if w < k {
        assert(s[k] != c);
    } else if w > k {
        assert(s[w] != c);
    }
}

/// Every notification reads back from its payload as itself, a client pause as long
/// as its address text reads as an IP address; that text comes back whole, `:`s and
/// all, as the flag after the last `:` holds none.
pub proof fn law_payload_roundtrip(n: NotificationView)
    requires
        n matches NotificationView::ClientPause(ip, _) ==> spec_is_ip_address(ip),
    ensures
        spec_from_payload(spec_to_payload(n)) == Some(n),
{
    let p = spec_to_payload(n);
    match n {
        NotificationView::Full => {},
        NotificationView::Host(name) => {
            assert(p[0] == 'h');
            assert(p != full_text());
            assert(p.subrange(0, 5) =~= host_prefix());
            assert(p.subrange(5, p.len() as int) =~= name);
        },
        NotificationView::GlobalPause(b) => {
            assert(p[0] == 'g');
            assert(p != full_text());
            assert(p.subrange(0, 5) != host_prefix());
            assert(p.subrange(0, 13) =~= global_pause_prefix());
            assert(p.subrange(13, p.len() as int) =~= bool_text(b));
        },
        NotificationView::ClientPause(ip, b) => {
            assert(p[0] == 'c');
            assert(p != full_text());
            assert(p.subrange(0, 5) != host_prefix()) by {
                assert(p.subrange(0, 5)[0] == 'c');
            }
            assert(p.subrange(0, 13) != global_pause_prefix()) by {
                assert(p.subrange(0, 13)[0] == 'c');
            }
            assert(p.subrange(0, 13) =~= client_pause_prefix());
            let rest = p.subrange(13, p.len() as int);
            assert(rest =~= ip + seq![':'] + bool_text(b));
            let k = ip.len() as int;
            assert(rest[k] == ':');
            assert forall|j: int| k < j < rest.len() implies rest[j] != ':' by {
                assert(rest[j] == bool_text(b)[j - k - 1]);
            }
            lemma_last_index_at(rest, ':', k);
            assert(rest.subrange(k + 1, rest.len() as int) =~= bool_text(b));
            assert(rest.subrange(0, k) =~= ip);
        },
    }
}

} // verus!
