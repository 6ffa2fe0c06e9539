//! Plain hosts-style lists: one entry per line, `#` starts a comment, and an
//! entry is either a bare hostname or an address followed by a hostname.

use vstd::prelude::*;
use crate::text::{
    is_ws, lemma_lines_join, lemma_next_index_concat, lemma_next_index_of_bounds, lemma_trim_push_ws,
    next_index_of, chars_of, field_bounds, next_line, find_from, index_of, lines, lines_from, pick_field, string_of,
    sub_chars, tokens, trim, trimmed, views,
};

verus! {

/// An ASCII letter or digit (`[a-zA-Z0-9]`).
pub open spec fn is_alnum(c: char) -> bool {
    ('a' <= c && c <= 'z') || ('A' <= c && c <= 'Z') || ('0' <= c && c <= '9')
}

/// A character allowed inside a hostname label (`[a-zA-Z0-9_-]`).
pub open spec fn is_label_char(c: char) -> bool {
    is_alnum(c) || c == '_' || c == '-'
}

/// The hostname pattern: one or more labels joined by `.`, each label made of
/// `[a-zA-Z0-9_-]` and starting and ending with `[a-zA-Z0-9]`. Stated on characters:
/// every character is a label character or a dot, the first and the last are
/// alphanumeric, and every dot sits between two alphanumerics.
pub open spec fn matches_hostname_pattern(t: Seq<char>) -> bool {
    &&& t.len() > 0
    &&& is_alnum(t[0])
    &&& is_alnum(t.last())
    &&& forall|i: int| 0 <= i < t.len() ==> is_label_char(#[trigger] t[i]) || t[i] == '.'
    &&& forall|i: int|
        0 < i < t.len() - 1 && #[trigger] t[i] == '.' ==> is_alnum(t[i - 1]) && is_alnum(t[i + 1])
}

pub open spec fn localhost() -> Seq<char> {
    seq!['l', 'o', 'c', 'a', 'l', 'h', 'o', 's', 't']
}

/// A token that names a host: it matches the hostname pattern and is not `localhost`.
pub open spec fn spec_is_hostname(t: Seq<char>) -> bool {
    matches_hostname_pattern(t) && t != localhost()
}

/// The part of `line` before its first `#`.
pub open spec fn spec_strip_comments(line: Seq<char>) -> Seq<char> {
    line.subrange(0, index_of(line, '#'))
}

/// The hostname a blocklist line names, if any.
pub open spec fn spec_extract_hostname(line: Seq<char>) -> Option<Seq<char>> {
    match pick_field(tokens(trim(spec_strip_comments(line)))) {
        Some(h) => if spec_is_hostname(h) {
            Some(h)
        } else {
            None
        },
        None => None,
    }
}

/// The hostname an allowlist line names, if any: the whole trimmed line.
pub open spec fn spec_allowlist_entry(line: Seq<char>) -> Option<Seq<char>> {
    let t = trim(spec_strip_comments(line));
    if t.len() > 0 && spec_is_hostname(t) {
        Some(t)
    } else {
        None
    }
}

/// The values that `f` gives on the lines of `ls`, in order, where it gives one.
pub open spec fn collect_some(
    ls: Seq<Seq<char>>,
    f: spec_fn(Seq<char>) -> Option<Seq<char>>,
) -> Seq<Seq<char>>
    decreases ls.len(),
{
    if ls.len() == 0 {
        seq![]
    } else {
        let rest = collect_some(ls.drop_first(), f);
        match f(ls[0]) {
            Some(x) => seq![x] + rest,
            None => rest,
        }
    }
}

/// The hostnames of a blocklist.
pub open spec fn spec_parse_blocklist(content: Seq<char>) -> Seq<Seq<char>> {
    collect_some(lines(content), blocklist_line())
}

/// `spec_extract_hostname` as a function value.
pub open spec fn blocklist_line() -> spec_fn(Seq<char>) -> Option<Seq<char>> {
    |l: Seq<char>| spec_extract_hostname(l)
}

/// `spec_allowlist_entry` as a function value.
pub open spec fn allowlist_line() -> spec_fn(Seq<char>) -> Option<Seq<char>> {
    |l: Seq<char>| spec_allowlist_entry(l)
}

/// The hostnames of an allowlist.
pub open spec fn spec_parse_allowlist(content: Seq<char>) -> Seq<Seq<char>> {
    collect_some(lines(content), allowlist_line())
}

proof fn lemma_collect_some_cons(
    l: Seq<char>,
    rest: Seq<Seq<char>>,
    f: spec_fn(Seq<char>) -> Option<Seq<char>>,
)
    ensures
        collect_some(seq![l] + rest, f) == (match f(l) {
            Some(x) => seq![x] + collect_some(rest, f),
            None => collect_some(rest, f),
        }),
{
    assert((seq![l] + rest).drop_first() =~= rest);
    assert((seq![l] + rest)[0] == l);
}

fn is_alnum_char(c: char) -> (r: bool)
    ensures
        r == is_alnum(c),
{
    ('a' <= c && c <= 'z') || ('A' <= c && c <= 'Z') || ('0' <= c && c <= '9')
}

fn hostname_chars(t: &Vec<char>) -> (r: bool)
    ensures
        r == spec_is_hostname(t@),
{
    let n = t.len();
    if n == 0 || !is_alnum_char(t[0]) || !is_alnum_char(t[n - 1]) {
        return false;
    }
    let mut i: usize = 0;
    while i < n
        invariant
            n == t.len(),
            0 < n,
            i <= n,
            is_alnum(t@[0]),
            is_alnum(t@[n - 1]),
            forall|j: int| 0 <= j < i ==> is_label_char(#[trigger] t@[j]) || t@[j] == '.',
            forall|j: int|
                0 < j < i && j < n - 1 && #[trigger] t@[j] == '.' ==> is_alnum(t@[j - 1])
                    && is_alnum(t@[j + 1]),
        decreases n - i,
    {
        let c = t[i];
        if c == '.' {
            if i > 0 && i < n - 1 && !(is_alnum_char(t[i - 1]) && is_alnum_char(t[i + 1])) {
                return false;
            }
        } else if !(is_alnum_char(c) || c == '_' || c == '-') {
            return false;
        }
        i = i + 1;
    }
    let is_localhost = n == 9 && t[0] == 'l' && t[1] == 'o' && t[2] == 'c' && t[3] == 'a' && t[4]
        == 'l' && t[5] == 'h' && t[6] == 'o' && t[7] == 's' && t[8] == 't';
    assert(is_localhost <==> t@ =~= localhost());
    !is_localhost
}

/// Whether `token` names a host (see `spec_is_hostname`).
pub fn is_hostname(token: &str) -> (r: bool)
    ensures
        r == spec_is_hostname(token@),
{
    let t = chars_of(token);
    hostname_chars(&t)
}

fn strip_comment_chars(line: &Vec<char>) -> (r: Vec<char>)
    ensures
        r@ == spec_strip_comments(line@),
{
    let e = find_from(line, '#', 0);
    sub_chars(line, 0, e)
}

/// The part of `line` before its first `#`.
pub fn strip_comments(line: &str) -> (r: String)
    ensures
        r@ == spec_strip_comments(line@),
{
    let v = chars_of(line);
    let e = find_from(&v, '#', 0);
    string_of(&v, 0, e)
}

/// The hostname a blocklist line names: the second field of the line without
/// its comment, or its only field, when that field is a hostname.
pub fn extract_hostname(line: &str) -> (r: Option<String>)
    ensures
        match r {
            Some(h) => spec_extract_hostname(line@) == Some(h@),
            None => spec_extract_hostname(line@) is None,
        },
{
    let v = chars_of(line);
    let cleaned = trimmed(&strip_comment_chars(&v));
    match field_bounds(&cleaned) {
        None => None,
        Some((a, b)) => {
            let h = sub_chars(&cleaned, a, b);
            if hostname_chars(&h) {
                Some(string_of(&cleaned, a, b))
            } else {
                None
            }
        },
    }
}

fn allowlist_entry(line: &str) -> (r: Option<String>)
    ensures
        match r {
            Some(h) => spec_allowlist_entry(line@) == Some(h@),
            None => spec_allowlist_entry(line@) is None,
        },
{
    let v = chars_of(line);
    let t = trimmed(&strip_comment_chars(&v));
    if t.len() > 0 && hostname_chars(&t) {
        Some(string_of(&t, 0, t.len()))
    } else {
        None
    }
}

/// The entries that the lines of `content` name, read as an allowlist when
/// `allow` holds and as a blocklist otherwise.
fn collect_entries(content: &str, allow: bool) -> (r: Vec<String>)
    ensures
        views(r@) == collect_some(
            lines(content@),
            if allow {
                allowlist_line()
            } else {
                blocklist_line()
            },
        ),
{
    let ghost f = if allow {
        allowlist_line()
    } else {
        blocklist_line()
    };
    let v = chars_of(content);
    let mut out: Vec<String> = Vec::new();
    let mut pos: usize = 0;
    while pos < v.len()
        invariant
            v@ == content@,
            f == (if allow {
                allowlist_line()
            } else {
                blocklist_line()
            }),
            pos <= v.len(),
            collect_some(lines(v@), f) == views(out@) + collect_some(lines_from(v@, pos as int), f),
        decreases v.len() - pos,
    {
        let (lo, hi, next) = next_line(&v, pos);
        let line = string_of(&v, lo, hi);
        proof {
            lemma_collect_some_cons(line@, lines_from(v@, next as int), f);
        }
        assert(lines_from(v@, pos as int) == seq![line@] + lines_from(v@, next as int));
        let entry = if allow {
            allowlist_entry(line.as_str())
        } else {
            extract_hostname(line.as_str())
        };
        assert(match entry {
            Some(h) => f(line@) == Some(h@),
            None => f(line@) is None,
        });
        match entry {
            Some(h) => {
                let ghost hv = h@;
                let ghost prev = out@;
                out.push(h);
                assert(views(out@) =~= views(prev).push(hv));
                assert(views(out@) + collect_some(lines_from(v@, next as int), f) =~= views(prev)
                    + (seq![hv] + collect_some(lines_from(v@, next as int), f)));
            },
            None => {},
        }
        pos = next;
    }
    assert(collect_some(lines_from(v@, pos as int), f) =~= Seq::<Seq<char>>::empty());
    assert(views(out@) + Seq::<Seq<char>>::empty() =~= views(out@));
    out
}

/// The hostnames named by the lines of a blocklist, in order (see `spec_extract_hostname`).
pub fn parse_blocklist(content: &str) -> (r: Vec<String>)
    ensures
        views(r@) == spec_parse_blocklist(content@),
{
    collect_entries(content, false)
}

/// The hostnames named by the lines of an allowlist, in order: each line without
/// its comment and surrounding whitespace, where that is a hostname.
pub fn parse_allowlist(content: &str) -> (r: Vec<String>)
    ensures
        views(r@) == spec_parse_allowlist(content@),
{
    collect_entries(content, true)
}

/// Whether `f` reads nothing from an empty line, and reads a line that ends with a
/// carriage return as it reads that line without it.
pub open spec fn line_insensitive(f: spec_fn(Seq<char>) -> Option<Seq<char>>) -> bool {
    &&& f(Seq::empty()) is None
    &&& forall|p: Seq<char>| p.len() > 0 && p.last() == '\r' ==> #[trigger] f(p) == f(p.drop_last())
}

proof fn lemma_collect_some_append(
    x: Seq<Seq<char>>,
    y: Seq<Seq<char>>,
    f: spec_fn(Seq<char>) -> Option<Seq<char>>,
)
    ensures
        collect_some(x + y, f) == collect_some(x, f) + collect_some(y, f),
    decreases x.len(),
{
    if x.len() == 0 {
        assert(x + y =~= y);
    } else {
        assert((x + y).drop_first() =~= x.drop_first() + y);
        assert((x + y)[0] == x[0]);
        lemma_collect_some_append(x.drop_first(), y, f);
        match f(x[0]) {
            Some(v) => {
                assert(seq![v] + (collect_some(x.drop_first(), f) + collect_some(y, f)) =~= seq![v]
                    + collect_some(x.drop_first(), f) + collect_some(y, f));
            },
            None => {},
        }
    }
}

/// Ending the last line of `a` with a newline changes nothing that `f` reads.
proof fn lemma_lines_terminated(a: Seq<char>, from: int, f: spec_fn(Seq<char>) -> Option<Seq<char>>)
    requires
        0 <= from <= a.len(),
        line_insensitive(f),
    ensures
        collect_some(lines_from(a + seq!['\n'], from), f) == collect_some(lines_from(a, from), f),
    decreases a.len() - from,
{
    let t = a + seq!['\n'];
    assert(t[a.len() as int] == '\n');
    if from == a.len() {
        assert(t.subrange(from, from) =~= Seq::<char>::empty());
        assert(lines_from(t, from + 1) =~= Seq::<Seq<char>>::empty());
        assert(lines_from(t, from) =~= seq![Seq::<char>::empty()]);
        lemma_collect_some_cons(Seq::empty(), Seq::empty(), f);
        assert(collect_some(Seq::<Seq<char>>::empty(), f) =~= Seq::<Seq<char>>::empty());
    } else {
        lemma_next_index_of_bounds(a, '\n', from);
        lemma_next_index_concat(a, seq!['\n'], '\n', from);
        assert(next_index_of(seq!['\n'], '\n', 0) == 0);
        let e = next_index_of(a, '\n', from);
        assert(t.subrange(from, e) =~= a.subrange(from, e));
        let piece = a.subrange(from, e);
        let cut = if piece.len() > 0 && piece.last() == '\r' {
            piece.drop_last()
        } else {
            piece
        };
        if e < a.len() {
            lemma_lines_terminated(a, e + 1, f);
            lemma_collect_some_cons(cut, lines_from(t, e + 1), f);
            lemma_collect_some_cons(cut, lines_from(a, e + 1), f);
        } else {
            assert(lines_from(t, e + 1) =~= Seq::<Seq<char>>::empty());
            assert(lines_from(t, from) =~= seq![cut]);
            assert(lines_from(a, from) =~= seq![piece]);
            assert(f(cut) == f(piece));
            lemma_collect_some_cons(cut, Seq::empty(), f);
            lemma_collect_some_cons(piece, Seq::empty(), f);
        }
    }
}

/// For a reader of lines that ignores empty lines and trailing carriage returns, a
/// text made of `a`, a newline and `b` reads as `a` and then `b`.
proof fn lemma_join(a: Seq<char>, b: Seq<char>, f: spec_fn(Seq<char>) -> Option<Seq<char>>)
    requires
        line_insensitive(f),
    ensures
        collect_some(lines(a + seq!['\n'] + b), f) == collect_some(lines(a), f) + collect_some(
            lines(b),
            f,
        ),
{
    lemma_lines_join(a, b, 0);
    lemma_collect_some_append(lines_from(a + seq!['\n'], 0), lines(b), f);
    lemma_lines_terminated(a, 0, f);
}

/// Cutting a trailing carriage return from a line changes neither the text before
/// its comment, once trimmed.
proof fn lemma_strip_cr(p: Seq<char>)
    requires
        p.len() > 0,
        p.last() == '\r',
    ensures
        trim(spec_strip_comments(p)) == trim(spec_strip_comments(p.drop_last())),
{
    let q = p.drop_last();
    assert(q.push('\r') =~= p);
    lemma_next_index_concat(q, seq!['\r'], '#', 0);
    lemma_next_index_of_bounds(q, '#', 0);
    assert(next_index_of(seq!['\r'], '#', 0) == 1) by {
        assert(next_index_of(seq!['\r'], '#', 1) == 1);
    }
    assert(q + seq!['\r'] =~= p);
    let k = index_of(q, '#');
    if k < q.len() {
        assert(spec_strip_comments(p) =~= spec_strip_comments(q));
    } else {
        assert(spec_strip_comments(p) =~= p);
        assert(spec_strip_comments(q) =~= q);
        assert(is_ws('\r'));
        lemma_trim_push_ws(q, '\r');
    }
}

proof fn lemma_blocklist_line_insensitive()
    ensures
        line_insensitive(blocklist_line()),
{
    assert(trim(spec_strip_comments(Seq::<char>::empty())) =~= Seq::<char>::empty()) by {
        assert(spec_strip_comments(Seq::<char>::empty()) =~= Seq::<char>::empty());
    }
    assert(tokens(Seq::<char>::empty()) =~= Seq::<Seq<char>>::empty());
    assert forall|p: Seq<char>| p.len() > 0 && p.last() == '\r' implies #[trigger] blocklist_line()(
        p,
    ) == blocklist_line()(p.drop_last()) by {
        lemma_strip_cr(p);
    }
}

proof fn lemma_allowlist_line_insensitive()
    ensures
        line_insensitive(allowlist_line()),
{
    assert(spec_strip_comments(Seq::<char>::empty()) =~= Seq::<char>::empty());
    assert forall|p: Seq<char>| p.len() > 0 && p.last() == '\r' implies #[trigger] allowlist_line()(
        p,
    ) == allowlist_line()(p.drop_last()) by {
        lemma_strip_cr(p);
    }
}

/// A blocklist made of two parts joined by a newline names the hosts of the first
/// part, then those of the second.
pub proof fn law_blocklist_join(a: Seq<char>, b: Seq<char>)
    ensures
        spec_parse_blocklist(a + seq!['\n'] + b) == spec_parse_blocklist(a) + spec_parse_blocklist(b),
{
    lemma_blocklist_line_insensitive();
    lemma_join(a, b, blocklist_line());
}

/// An allowlist made of two parts joined by a newline names the hosts of the first
/// part, then those of the second.
pub proof fn law_allowlist_join(a: Seq<char>, b: Seq<char>)
    ensures
        spec_parse_allowlist(a + seq!['\n'] + b) == spec_parse_allowlist(a) + spec_parse_allowlist(b),
{
    lemma_allowlist_line_insensitive();
    lemma_join(a, b, allowlist_line());
}

} // verus!
