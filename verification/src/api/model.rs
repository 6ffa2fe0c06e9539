//! What the API takes and gives, and the opaque tokens that page through lists.

use vstd::prelude::*;
use base64::Engine;
use crate::model::{HostDisposition, Source, SourceHost, Timestamp};

verus! {

/// A request to create a source.
pub struct CreateSourceRequest {
    pub id: String,
    pub url: Option<String>,
    pub path: Option<String>,
    pub disposition: HostDisposition,
}

/// A source as the API shows it.
pub struct SourceResponse {
    pub id: String,
    pub url: Option<String>,
    pub path: Option<String>,
    pub disposition: HostDisposition,
    pub is_file_managed: bool,
    pub created_at: Timestamp,
    pub updated_at: Timestamp,
}

/// A request to add a host to a source.
pub struct CreateHostRequest {
    pub name: String,
    pub disposition: HostDisposition,
}

/// A host as the API shows it.
pub struct HostResponse {
    pub name: String,
    pub source_id: String,
    pub disposition: HostDisposition,
    pub created_at: Timestamp,
    pub updated_at: Timestamp,
}

/// A client that has made blocked queries, by address text.
pub struct ClientResponse {
    pub ip: String,
    pub last_seen: Timestamp,
    pub is_paused: Option<bool>,
    pub pause_expires: Option<Timestamp>,
}

/// A blocked query of a client.
pub struct BlockEventResponse {
    pub domain: String,
    pub time: Timestamp,
}

/// The token of the page to list.
pub struct PaginationQuery {
    pub next_token: Option<String>,
}

/// The most items one page holds.
pub const PAGE_SIZE: usize = 100;

/// One page of a list, and the token of the next page when there is one.
pub struct PaginatedResponse<T> {
    pub items: Vec<T>,
    pub next_token: Option<String>,
}

/// `source` as the API shows it.
pub fn source_to_response(source: Source) -> (r: SourceResponse)
    ensures
        r.id == source.id,
        r.url == source.url,
        r.path == source.path,
        r.disposition == source.disposition,
        r.is_file_managed == source.spec_is_file_managed(),
        r.created_at == source.created_at,
        r.updated_at == source.updated_at,
{
    let is_file_managed = source.is_file_managed();
    SourceResponse {
        id: source.id,
        url: source.url,
        path: source.path,
        disposition: source.disposition,
        is_file_managed,
        created_at: source.created_at,
        updated_at: source.updated_at,
    }
}

/// `host` as the API shows it.
pub fn host_to_response(host: SourceHost) -> (r: HostResponse)
    ensures
        r.name == host.name,
        r.source_id == host.source_id,
        r.disposition == host.disposition,
        r.created_at == host.created_at,
        r.updated_at == host.updated_at,
{
    HostResponse {
        name: host.name,
        source_id: host.source_id,
        disposition: host.disposition,
        created_at: host.created_at,
        updated_at: host.updated_at,
    }
}

/// The ASCII decimal digits of `n`, most significant first, without leading zeros.
pub open spec fn decimal_bytes(n: nat) -> Seq<u8>
    decreases n,
{
    if n < 10 {
        seq![(48 + n) as u8]
    } else {
        decimal_bytes(n / 10).push((48 + n % 10) as u8)
    }
}

/// An ASCII decimal digit.
pub open spec fn is_digit_byte(b: u8) -> bool {
    48 <= b <= 57
}

/// The value of a sequence of ASCII decimal digits.
pub open spec fn digits_value(ds: Seq<u8>) -> nat
    decreases ds.len(),
{
    if ds.len() == 0 {
        0
    } else {
        digits_value(ds.drop_last()) * 10 + (ds.last() - 48) as nat
    }
}

/// The bytes after an optional leading `+`.
pub open spec fn unsigned_digits(b: Seq<u8>) -> Seq<u8> {
    if b.len() > 0 && b[0] == 43u8 {
        b.subrange(1, b.len() as int)
    } else {
        b
    }
}

/// What `usize::from_str` gives for text made of these bytes: an optional `+`, then
/// one or more ASCII digits whose value fits in a `usize`.
pub open spec fn spec_parse_usize(b: Seq<u8>) -> Option<usize> {
    let ds = unsigned_digits(b);
    if ds.len() > 0 && (forall|i: int| 0 <= i < ds.len() ==> is_digit_byte(#[trigger] ds[i]))
        && digits_value(ds) <= usize::MAX {
        Some(digits_value(ds) as usize)
    } else {
        None
    }
}

/// What the URL-safe, unpadded base64 engine makes of some bytes.
pub uninterp spec fn spec_base64_encode(bytes: Seq<u8>) -> Seq<char>;

/// What the URL-safe, unpadded base64 engine decodes from a text, when it accepts it.
pub uninterp spec fn spec_base64_decode(text: Seq<char>) -> Option<Seq<u8>>;

/// `URL_SAFE_NO_PAD.encode` of the base64 crate. Trusted: the result is
/// `spec_base64_encode(bytes)`; the length bound keeps the crate's size computation
/// from overflowing.
#[verifier::external_body]
fn base64_encode(bytes: &[u8]) -> (r: String)
    requires
        bytes@.len() <= usize::MAX / 2,
    ensures
        r@ == spec_base64_encode(bytes@),
{
    base64::engine::general_purpose::URL_SAFE_NO_PAD.encode(bytes)
}

/// `URL_SAFE_NO_PAD.decode` of the base64 crate. Trusted: the result is
/// `spec_base64_decode(text)`, and the engine's own encoding of any bytes decodes
/// back to those bytes (encoding writes no padding and zero trailing bits, which is
/// what decoding requires).
#[verifier::external_body]
fn base64_decode(text: &str) -> (r: Option<Vec<u8>>)
    ensures
        match r {
            Some(b) => spec_base64_decode(text@) == Some(b@),
            None => spec_base64_decode(text@) is None,
        },
        forall|b: Seq<u8>| text@ == spec_base64_encode(b) ==> r is Some && r->0@ == b,
{
    base64::engine::general_purpose::URL_SAFE_NO_PAD.decode(text).ok()
}

/// The token of the page that starts at `offset`.
pub open spec fn spec_encode_next_token(offset: usize) -> Seq<char> {
    spec_base64_encode(decimal_bytes(offset as nat))
}

/// The offset a token names, if it names one.
pub open spec fn spec_decode_next_token(token: Seq<char>) -> Option<usize> {
    match spec_base64_decode(token) {
        Some(b) => spec_parse_usize(b),
        None => None,
    }
}

proof fn lemma_decimal_len(n: nat, k: nat)
    requires
        n < pow10(k),
        k >= 1,
    ensures
        decimal_bytes(n).len() <= k,
    decreases k,
{
    if n >= 10 {
        assert(k >= 2) by {
            if k == 1 {
                reveal_with_fuel(pow10, 2);
                assert(pow10(1) == 10);
            }
        }
        assert(pow10(k) == 10 * pow10((k - 1) as nat));
        assert(n / 10 < pow10((k - 1) as nat));
        lemma_decimal_len(n / 10, (k - 1) as nat);
    }
}

/// Ten to the power `k`.
pub open spec fn pow10(k: nat) -> nat
    decreases k,
{
    if k == 0 {
        1
    } else {
        10 * pow10((k - 1) as nat)
    }
}

proof fn lemma_decimal_bytes(n: nat)
    ensures
        decimal_bytes(n).len() > 0,

        forall|i: int| 0 <= i < decimal_bytes(n).len() ==> is_digit_byte(#[trigger] decimal_bytes(n)[i]),
        digits_value(decimal_bytes(n)) == n,
        decimal_bytes(n)[0] != 43u8,
    decreases n,
{
    if n >= 10 {
        lemma_decimal_bytes(n / 10);
        let d = decimal_bytes(n / 10);
        let s = d.push((48 + n % 10) as u8);
        assert(s.drop_last() =~= d);
        assert(s.last() == (48 + n % 10) as u8);
        assert(digits_value(s) == digits_value(d) * 10 + (n % 10));
        vstd::arithmetic::div_mod::lemma_fundamental_div_mod(n as int, 10);
        assert(digits_value(d) == n / 10);
        assert forall|i: int| 0 <= i < s.len() implies is_digit_byte(#[trigger] s[i]) by {
            if i < d.len() {
                assert(s[i] == d[i]);
            }
        }
        assert(s[0] == d[0]);
    } else {
        let s = decimal_bytes(n);
        assert(s =~= seq![(48 + n) as u8]);
        assert(s.drop_last() =~= Seq::<u8>::empty());
        assert(digits_value(Seq::<u8>::empty()) == 0);
        assert(s.last() == (48 + n) as u8);
        assert(digits_value(s) == digits_value(s.drop_last()) * 10 + (s.last() - 48) as nat);
    }
}

/// The decimal digits of `n`, as bytes.
fn decimal_digits(n: usize) -> (r: Vec<u8>)
    ensures
        r@ == decimal_bytes(n as nat),
    decreases n,
{
    if n < 10 {
        let d: u8 = (48 + n) as u8;
        let mut r: Vec<u8> = Vec::new();
        r.push(d);
        assert(r@ =~= seq![(48 + n) as u8]);
        r
    } else {
        let mut r = decimal_digits(n / 10);
        let d: u8 = (48 + n % 10) as u8;
        r.push(d);
        r
    }
}

/// Encodes an offset as an opaque token: the base64 of its decimal digits.
pub fn encode_next_token(offset: usize) -> (r: String)
    ensures
        r@ == spec_encode_next_token(offset),
{
    let digits = decimal_digits(offset);
    proof {
        lemma_decimal_bytes(offset as nat);
        reveal_with_fuel(pow10, 21);
        assert(pow10(20) == 100000000000000000000);
        lemma_decimal_len(offset as nat, 20);
    }
    base64_encode(digits.as_slice())
}

/// The value of the decimal text in `b` (see `spec_parse_usize`).
fn parse_usize(b: &Vec<u8>) -> (r: Option<usize>)
    ensures
        r == spec_parse_usize(b@),
{
    let start: usize = if b.len() > 0 && b[0] == 43u8 {
        1
    } else {
        0
    };
    let ghost ds = unsigned_digits(b@);
    assert(ds =~= b@.subrange(start as int, b@.len() as int));
    if start >= b.len() {
        return None;
    }
    let mut value: usize = 0;
    let mut i = start;
    while i < b.len()
        invariant
            start <= i <= b.len(),
            start < b.len(),
            ds == b@.subrange(start as int, b@.len() as int),
            ds == unsigned_digits(b@),
            forall|j: int| 0 <= j < i - start ==> is_digit_byte(#[trigger] ds[j]),
            value == digits_value(ds.subrange(0, i - start)),
        decreases b.len() - i,
    {
        let c = b[i];
        assert(ds[i - start] == c);
        if !(48u8 <= c && c <= 57u8) {
            assert(!is_digit_byte(ds[i - start]));
            return None;
        }
        assert(ds.subrange(0, i + 1 - start).drop_last() =~= ds.subrange(0, i - start));
        let digit = (c - 48u8) as usize;
        if value > (usize::MAX - digit) / 10 {
            proof {
                assert(value * 10 + digit > usize::MAX) by (nonlinear_arith)
                    requires
                        value > (usize::MAX - digit) / 10,
                        digit <= 9,
                ;
                assert(digits_value(ds.subrange(0, i + 1 - start)) == value * 10 + digit);
                lemma_digits_value_grows(ds, i + 1 - start);
                assert(ds.subrange(0, ds.len() as int) =~= ds);
            }
            return None;
        }
        assert(value * 10 + digit <= usize::MAX) by (nonlinear_arith)
            requires
                value <= (usize::MAX - digit) / 10,
                digit <= 9,
        ;
        value = value * 10 + digit;
        i = i + 1;
    }
    assert(ds.subrange(0, ds.len() as int) =~= ds);
    Some(value)
}

proof fn lemma_digits_value_grows(ds: Seq<u8>, k: int)
    requires
        0 <= k <= ds.len(),
        forall|j: int| 0 <= j < k ==> is_digit_byte(#[trigger] ds[j]),
    ensures
        digits_value(ds.subrange(0, k)) <= digits_value(ds.subrange(0, ds.len() as int))
            || exists|j: int| k <= j < ds.len() && !is_digit_byte(#[trigger] ds[j]),
    decreases ds.len() - k,
{
    if k < ds.len() && is_digit_byte(ds[k]) {
        lemma_digits_value_grows(ds, k + 1);
        assert(ds.subrange(0, k + 1).drop_last() =~= ds.subrange(0, k));
        let x = digits_value(ds.subrange(0, k));
        let y = (ds[k] - 48) as nat;
        assert(digits_value(ds.subrange(0, k + 1)) == x * 10 + y);
        assert(x * 10 + y >= x) by (nonlinear_arith);
    } else if k < ds.len() {
        assert(!is_digit_byte(ds[k]));
    } else {
        assert(ds.subrange(0, k) =~= ds.subrange(0, ds.len() as int));
    }
}

/// Decodes a token into the offset it names; `None` for a token that is not the
/// base64 of a decimal number that fits in a `usize`. A token made by
/// `encode_next_token` gives back its offset.
pub fn decode_next_token(token: &str) -> (r: Option<usize>)
    ensures
        r == spec_decode_next_token(token@),
        forall|n: usize| token@ == spec_encode_next_token(n) ==> r == Some(n),
{
    let decoded = match base64_decode(token) {
        Some(b) => b,
        None => {
            return None;
        },
    };
    let r = parse_usize(&decoded);
    proof {
        assert forall|n: usize| token@ == spec_encode_next_token(n) implies r == Some(n) by {
            lemma_decimal_bytes(n as nat);
            let ds = decimal_bytes(n as nat);
            assert(decoded@ == ds);
            assert(ds.subrange(0, ds.len() as int) =~= ds);
        }
    }
    r
}

/// The offset that a page token names; the first page when there is no token or
/// it names none.
pub fn offset_from_token(next_token: &Option<String>) -> (r: usize)
    ensures
        r == match next_token {
            Some(t) => match spec_decode_next_token(t@) {
                Some(n) => n,
                None => 0,
            },
            None => 0,
        },
{
    match next_token {
        Some(t) => match decode_next_token(t.as_str()) {
            Some(n) => n,
            None => 0,
        },
        None => 0,
    }
}

/// The page made from `fetched`, the items fetched from `offset` on, one more than a
/// page holds when there are more: the extra item is dropped and the token of the
/// next page, at `offset + PAGE_SIZE`, is given.
pub fn page_from_fetched<T>(fetched: Vec<T>, offset: usize) -> (r: PaginatedResponse<T>)
    requires
        fetched@.len() > PAGE_SIZE ==> offset + PAGE_SIZE <= usize::MAX,
    ensures
        fetched@.len() > PAGE_SIZE ==> r.items@ == fetched@.drop_last() && (r.next_token matches Some(
            t,
        ) && t@ == spec_encode_next_token((offset + PAGE_SIZE) as usize)),
        fetched@.len() <= PAGE_SIZE ==> r.items@ == fetched@ && r.next_token is None,
{
    let mut items = fetched;
    if items.len() > PAGE_SIZE {
        items.pop();
        let token = encode_next_token(offset + PAGE_SIZE);
        PaginatedResponse { items, next_token: Some(token) }
    } else {
        PaginatedResponse { items, next_token: None }
    }
}

/// The page number a request asks for, taken as at least 1.
pub open spec fn effective_page(page: usize) -> int {
    if page < 1 {
        1
    } else {
        page as int
    }
}

/// The page size a request asks for, held between 1 and 100.
pub open spec fn effective_page_size(page_size: usize) -> int {
    if page_size > 100 {
        100
    } else if page_size < 1 {
        1
    } else {
        page_size as int
    }
}

/// Which items a numbered page shows: how many to skip and how many to take at
/// most. Pages count from 1 (0 counts as 1) and hold 1 to 100 items.
pub fn page_window(page: usize, page_size: usize) -> (r: (usize, usize))
    requires
        (effective_page(page) - 1) * effective_page_size(page_size) <= usize::MAX,
    ensures
        r.1 == effective_page_size(page_size),
        r.0 == (effective_page(page) - 1) * effective_page_size(page_size),
{
    let page = if page < 1 {
        1
    } else {
        page
    };
    let size = if page_size > 100 {
        100
    } else if page_size < 1 {
        1
    } else {
        page_size
    };
    ((page - 1) * size, size)
}

} // verus!
