//! Blocklist and allowlist sources: each line names a domain, directly or after
//! a sinkhole address; names are made fully qualified and shallow wildcards dropped.

use vstd::prelude::*;
use crate::name::{parse_lower_name, spec_lower_name};
use crate::text::{
    chars_of, field_bounds, find_from, index_of, lines, lines_from, next_line, pick_field, push_char,
    string_from, string_of, sub_chars, tokens, trim, trimmed,
};

verus! {

/// A host read from a list source: the text of its `LowerName`.
pub struct ParsedHost {
    pub name: String,
}

/// Why a list line names no host.
#[derive(Debug, PartialEq, Eq)]
pub enum ParseLineError {
    /// The domain field is empty.
    EmptyDomain,
    /// hickory does not accept this (normalized) domain as a name.
    InvalidDomainName(String),
}

/// The view of a `ParseLineError`.
pub enum ParseLineErrorView {
    EmptyDomain,
    InvalidDomainName(Seq<char>),
}

impl View for ParseLineError {
    type V = ParseLineErrorView;

    open spec fn view(&self) -> ParseLineErrorView {
        match self {
            ParseLineError::EmptyDomain => ParseLineErrorView::EmptyDomain,
            ParseLineError::InvalidDomainName(s) => ParseLineErrorView::InvalidDomainName(s@),
        }
    }
}

/// How many times `c` occurs in `s` at or after `from`.
pub open spec fn count_from(s: Seq<char>, c: char, from: int) -> nat
    decreases s.len() - from,
{
    if from < 0 || from >= s.len() {
        0
    } else {
        (if s[from] == c {
            1nat
        } else {
            0nat
        }) + count_from(s, c, from + 1)
    }
}

/// How many times `c` occurs in `s`.
pub open spec fn count_char(s: Seq<char>, c: char) -> nat {
    count_from(s, c, 0)
}

/// How many times `c` occurs in `v`.
pub fn count_occurrences(v: &Vec<char>, c: char) -> (n: usize)
    ensures
        n == count_char(v@, c),
{
    let mut n: usize = 0;
    let mut i: usize = v.len();
    while i > 0
        invariant
            i <= v.len(),
            n == count_from(v@, c, i as int),
            n <= v.len() - i,
        decreases i,
    {
        i = i - 1;
        if v[i] == c {
            n = n + 1;
        }
    }
    n
}

/// Whether `s` starts with `*.`.
pub open spec fn starts_with_wildcard(s: Seq<char>) -> bool {
    s.len() >= 2 && s[0] == '*' && s[1] == '.'
}

/// A wildcard less than two labels deep: it starts with `*.` and holds fewer than three dots.
pub open spec fn spec_is_invalid_wildcard(d: Seq<char>) -> bool {
    starts_with_wildcard(d) && count_char(d, '.') < 3
}

/// The fully qualified form of a domain: trimmed, with a `.` appended unless it ends
/// with one; an error when nothing is left after trimming.
pub open spec fn spec_normalize_domain(d: Seq<char>) -> Result<Seq<char>, ParseLineErrorView> {
    let t = trim(d);
    if t.len() == 0 {
        Err(ParseLineErrorView::EmptyDomain)
    } else if t.last() == '.' {
        Ok(t)
    } else {
        Ok(t.push('.'))
    }
}

/// The domain a list line names, before hickory reads it: `None` for a blank line,
/// a comment line, or a wildcard too shallow to keep.
pub open spec fn spec_line_domain(line: Seq<char>) -> Result<Option<Seq<char>>, ParseLineErrorView> {
    let t = trim(line);
    if t.len() == 0 || t[0] == '#' {
        Ok(None)
    } else {
        match pick_field(tokens(t.subrange(0, index_of(t, '#')))) {
            None => Ok(None),
            Some(d) => match spec_normalize_domain(d) {
                Err(e) => Err(e),
                Ok(n) => if spec_is_invalid_wildcard(n) {
                    Ok(None)
                } else {
                    Ok(Some(n))
                },
            },
        }
    }
}

/// What a list line gives: the text of the host it names, nothing, or an error.
pub open spec fn spec_parse_line(line: Seq<char>) -> Result<Option<Seq<char>>, ParseLineErrorView> {
    match spec_line_domain(line) {
        Err(e) => Err(e),
        Ok(None) => Ok(None),
        Ok(Some(n)) => match spec_lower_name(n) {
            Some((text, _, _)) => Ok(Some(text)),
            None => Err(ParseLineErrorView::InvalidDomainName(n)),
        },
    }
}

/// The host text a line gives, if it gives one.
pub open spec fn spec_line_host(line: Seq<char>) -> Option<Seq<char>> {
    match spec_parse_line(line) {
        Ok(Some(t)) => Some(t),
        _ => None,
    }
}

/// The host texts that the lines of `ls` give, in order.
pub open spec fn hosts_of_lines(ls: Seq<Seq<char>>) -> Seq<Seq<char>>
    decreases ls.len(),
{
    if ls.len() == 0 {
        seq![]
    } else {
        match spec_line_host(ls[0]) {
            Some(t) => seq![t] + hosts_of_lines(ls.drop_first()),
            None => hosts_of_lines(ls.drop_first()),
        }
    }
}

/// The host texts of a list.
pub open spec fn spec_parse_list(content: Seq<char>) -> Seq<Seq<char>> {
    hosts_of_lines(lines(content))
}

/// A normalized domain is its own normal form: normalizing twice gives what
/// normalizing once gave.
pub proof fn law_normalize_idempotent(d: Seq<char>)
    requires
        spec_normalize_domain(d) is Ok,
    ensures
        spec_normalize_domain(spec_normalize_domain(d)->Ok_0) == spec_normalize_domain(d),
{
    let t = trim(d);
    crate::text::lemma_trim_shape(d);
    let n = spec_normalize_domain(d)->Ok_0;
    if t.last() != '.' {
        assert(n[0] == t[0]);
        assert(n.last() == '.');
        assert(!crate::text::is_ws('.'));
    }
    crate::text::lemma_trim_fixed(n);
}

/// The domain that a list line hands on is fully qualified (it ends with `.`) and is
/// no wildcard less than two labels deep.
pub proof fn law_line_domain_qualified(line: Seq<char>)
    ensures
        spec_line_domain(line) matches Ok(Some(n)) ==> n.len() > 0 && n.last() == '.'
            && !spec_is_invalid_wildcard(n),
{
}

/// Where the trim of `line` lies in it.
proof fn lemma_trim_bounds_of(line: Seq<char>)
    ensures
        crate::text::skip_ws(line, 0) <= crate::text::rskip_ws(
            line,
            crate::text::skip_ws(line, 0),
            line.len() as int,
        ) <= line.len(),
        trim(line) == line.subrange(
            crate::text::skip_ws(line, 0),
            crate::text::rskip_ws(line, crate::text::skip_ws(line, 0), line.len() as int),
        ),
{
    crate::text::lemma_skip_ws_bounds(line, 0);
    crate::text::lemma_trim_start_subrange(line, 0);
    assert(line.subrange(0, line.len() as int) =~= line);
    crate::text::lemma_trim_end_subrange(line, crate::text::skip_ws(line, 0), line.len() as int);
}

/// A line names its domain only by the text before its first `#`: cutting the line
/// there changes nothing it gives.
pub proof fn law_line_domain_before_comment(line: Seq<char>)
    ensures
        spec_line_domain(line) == spec_line_domain(line.subrange(0, index_of(line, '#'))),
{
    let k = index_of(line, '#');
    crate::text::lemma_next_index_of_bounds(line, '#', 0);
    if k >= line.len() {
        assert(line.subrange(0, k) =~= line);
    } else {
        let p = line.subrange(0, k);
        assert(!crate::text::is_ws('#'));
        crate::text::lemma_skip_ws_bounds(line, 0);
        let s = crate::text::skip_ws(line, 0);
        assert(s <= k) by {
            if s > k {
                assert(crate::text::is_ws(line[k]));
            }
        }
        lemma_trim_bounds_of(line);
        let e = crate::text::rskip_ws(line, s, line.len() as int);
        crate::text::lemma_rskip_ws_bounds(line, s, line.len() as int);
        assert(e > k) by {
            if e <= k {
                assert(crate::text::is_ws(line[k]));
            }
        }
        let t = trim(line);
        assert(t == line.subrange(s, e));
        assert forall|j: int| 0 <= j < s implies crate::text::is_ws(#[trigger] p[j]) by {
            assert(p[j] == line[j]);
        }
        if s < k {
            assert(p[s] == line[s]);
        }
        crate::text::lemma_skip_ws_unique(p, 0, s);
        lemma_trim_bounds_of(p);
        let e2 = crate::text::rskip_ws(p, s, k);
        crate::text::lemma_rskip_ws_bounds(p, s, k);
        let t2 = trim(p);
        assert(t2 == p.subrange(s, e2));
        if s == k {
            assert(t[0] == line[k]);
            assert(t2.len() == 0);
        } else {
            assert(t[0] == line[s]);
            assert(line[s] != '#');
            assert(e2 > s) by {
                if e2 == s {
                    assert(crate::text::is_ws(p[s]));
                }
            }
            assert(t2[0] == p[s]);
            assert forall|j: int| 0 <= j < k - s implies t[j] != '#' by {
                assert(t[j] == line[s + j]);
            }
            assert(t[k - s] == line[k]);
            crate::text::lemma_index_of_at(t, '#', k - s);
            let a = t.subrange(0, k - s);
            crate::text::lemma_next_index_of_bounds(t2, '#', 0);
            let i2 = index_of(t2, '#');
            assert(i2 == t2.len()) by {
                if i2 < t2.len() {
                    assert(t2[i2] == line[s + i2]);
                }
            }
            assert(t2.subrange(0, i2) =~= t2);
            let w = line.subrange(e2, k);
            assert forall|j: int| 0 <= j < w.len() implies crate::text::is_ws(#[trigger] w[j]) by {
                assert(w[j] == p[e2 + j]);
            }
            assert(a =~= t2 + w);
            crate::text::lemma_tokens_trailing_ws(t2, w, 0);
        }
    }
}

pub open spec fn host_views(v: Seq<ParsedHost>) -> Seq<Seq<char>> {
    v.map_values(|h: ParsedHost| h.name@)
}

fn normalize_chars(d: &Vec<char>) -> (r: Result<Vec<char>, ParseLineError>)
    ensures
        match r {
            Ok(n) => spec_normalize_domain(d@) == Ok::<Seq<char>, ParseLineErrorView>(n@),
            Err(e) => spec_normalize_domain(d@) == Err::<Seq<char>, ParseLineErrorView>(e@),
        },
{
    let mut t = trimmed(d);
    if t.len() == 0 {
        return Err(ParseLineError::EmptyDomain);
    }
    if t[t.len() - 1] != '.' {
        t.push('.');
    }
    Ok(t)
}

/// `domain` trimmed and ending with `.`; an error when it is blank.
pub fn normalize_domain(domain: &str) -> (r: Result<String, ParseLineError>)
    ensures
        match r {
            Ok(n) => spec_normalize_domain(domain@) == Ok::<Seq<char>, ParseLineErrorView>(n@),
            Err(e) => spec_normalize_domain(domain@) == Err::<Seq<char>, ParseLineErrorView>(e@),
        },
{
    let d = chars_of(domain);
    match normalize_chars(&d) {
        Ok(n) => Ok(string_from(&n)),
        Err(e) => Err(e),
    }
}

fn invalid_wildcard_chars(d: &Vec<char>) -> (r: bool)
    ensures
        r == spec_is_invalid_wildcard(d@),
{
    if !(d.len() >= 2 && d[0] == '*' && d[1] == '.') {
        return false;
    }
    count_occurrences(d, '.') < 3
}

/// Whether `domain` is a wildcard less than two labels deep (`*.com.`).
pub fn is_invalid_wildcard(domain: &str) -> (r: bool)
    ensures
        r == spec_is_invalid_wildcard(domain@),
{
    invalid_wildcard_chars(&chars_of(domain))
}

fn line_domain(line: &str) -> (r: Result<Option<Vec<char>>, ParseLineError>)
    ensures
        match r {
            Ok(Some(n)) => spec_line_domain(line@) == Ok::<Option<Seq<char>>, ParseLineErrorView>(
                Some(n@),
            ),
            Ok(None) => spec_line_domain(line@) == Ok::<Option<Seq<char>>, ParseLineErrorView>(
                None,
            ),
            Err(e) => spec_line_domain(line@) == Err::<Option<Seq<char>>, ParseLineErrorView>(e@),
        },
{
    let t = trimmed(&chars_of(line));
    if t.len() == 0 || t[0] == '#' {
        return Ok(None);
    }
    let before = sub_chars(&t, 0, find_from(&t, '#', 0));
    match field_bounds(&before) {
        None => Ok(None),
        Some((a, b)) => {
            let d = sub_chars(&before, a, b);
            match normalize_chars(&d) {
                Err(e) => Err(e),
                Ok(n) => {
                    if invalid_wildcard_chars(&n) {
                        Ok(None)
                    } else {
                        Ok(Some(n))
                    }
                },
            }
        },
    }
}

/// Reads one list line: `None` for a blank or comment line or a shallow wildcard,
/// else the host that hickory makes of the normalized domain, or an error.
pub fn parse_line(line: &str) -> (r: Result<Option<ParsedHost>, ParseLineError>)
    ensures
        match r {
            Ok(Some(h)) => spec_parse_line(line@) == Ok::<Option<Seq<char>>, ParseLineErrorView>(
                Some(h.name@),
            ),
            Ok(None) => spec_parse_line(line@) == Ok::<Option<Seq<char>>, ParseLineErrorView>(
                None,
            ),
            Err(e) => spec_parse_line(line@) == Err::<Option<Seq<char>>, ParseLineErrorView>(e@),
        },
{
    match line_domain(line) {
        Err(e) => Err(e),
        Ok(None) => Ok(None),
        Ok(Some(n)) => {
            let normalized = string_from(&n);
            match parse_lower_name(normalized.as_str()) {
                Some((text, _)) => Ok(Some(ParsedHost { name: text })),
                None => Err(ParseLineError::InvalidDomainName(normalized)),
            }
        },
    }
}

proof fn lemma_hosts_of_lines_cons(l: Seq<char>, rest: Seq<Seq<char>>)
    ensures
        hosts_of_lines(seq![l] + rest) == (match spec_line_host(l) {
            Some(t) => seq![t] + hosts_of_lines(rest),
            None => hosts_of_lines(rest),
        }),
{
    assert((seq![l] + rest).drop_first() =~= rest);
    assert((seq![l] + rest)[0] == l);
}

/// The hosts that the lines of a list give, in order; lines that give nothing or
/// an error are skipped.
pub fn parse_list(content: &str) -> (r: Vec<ParsedHost>)
    ensures
        host_views(r@) == spec_parse_list(content@),
{
    let v = chars_of(content);
    let mut out: Vec<ParsedHost> = Vec::new();
    let mut pos: usize = 0;
    while pos < v.len()
        invariant
            v@ == content@,
            pos <= v.len(),
            hosts_of_lines(lines(v@)) == host_views(out@) + hosts_of_lines(
                lines_from(v@, pos as int),
            ),
        decreases v.len() - pos,
    {
        let (lo, hi, next) = next_line(&v, pos);
        let line = string_of(&v, lo, hi);
        proof {
            lemma_hosts_of_lines_cons(line@, lines_from(v@, next as int));
        }
        assert(lines_from(v@, pos as int) == seq![line@] + lines_from(v@, next as int));
        match parse_line(line.as_str()) {
            Ok(Some(h)) => {
                let ghost hv = h.name@;
                let ghost prev = out@;
                out.push(h);
                assert(host_views(out@) =~= host_views(prev).push(hv));
                assert(host_views(out@) + hosts_of_lines(lines_from(v@, next as int)) =~= host_views(
                    prev,
                ) + (seq![hv] + hosts_of_lines(lines_from(v@, next as int))));
            },
            _ => {},
        }
        pos = next;
    }
    assert(hosts_of_lines(lines_from(v@, pos as int)) =~= Seq::<Seq<char>>::empty());
    assert(host_views(out@) + Seq::<Seq<char>>::empty() =~= host_views(out@));
    out
}

} // verus!
