//! Character-level helpers shared by the parsers: whitespace, trimming,
//! line splitting and whitespace-separated tokens, all stated over `Seq<char>`.

use vstd::prelude::*;

verus! {

broadcast use vstd::string::group_string_axioms;

/// Unicode `White_Space`, the property that `char::is_whitespace` tests.
pub open spec fn is_ws(c: char) -> bool {
    ||| ('\t' <= c && c <= '\r')
    ||| c == ' '
    ||| c == '\u{85}'
    ||| c == '\u{a0}'
    ||| c == '\u{1680}'
    ||| ('\u{2000}' <= c && c <= '\u{200a}')
    ||| c == '\u{2028}'
    ||| c == '\u{2029}'
    ||| c == '\u{202f}'
    ||| c == '\u{205f}'
    ||| c == '\u{3000}'
}

/// Whether `c` is Unicode whitespace.
pub fn is_whitespace(c: char) -> (r: bool)
    ensures
        r == is_ws(c),
{
    ('\t' <= c && c <= '\r') || c == ' ' || c == '\u{85}' || c == '\u{a0}' || c == '\u{1680}'
        || ('\u{2000}' <= c && c <= '\u{200a}') || c == '\u{2028}' || c == '\u{2029}' || c
        == '\u{202f}' || c == '\u{205f}' || c == '\u{3000}'
}

/// `s` without its leading whitespace.
pub open spec fn trim_start(s: Seq<char>) -> Seq<char>
    decreases s.len(),
{
    if s.len() > 0 && is_ws(s[0]) {
        trim_start(s.drop_first())
    } else {
        s
    }
}

/// `s` without its trailing whitespace.
pub open spec fn trim_end(s: Seq<char>) -> Seq<char>
    decreases s.len(),
{
    if s.len() > 0 && is_ws(s.last()) {
        trim_end(s.drop_last())
    } else {
        s
    }
}

/// `s` without leading and trailing whitespace (`str::trim`).
pub open spec fn trim(s: Seq<char>) -> Seq<char> {
    trim_end(trim_start(s))
}

/// The first index at or after `from` that holds `c`, or `s.len()` if there is none.
pub open spec fn next_index_of(s: Seq<char>, c: char, from: int) -> int
    decreases s.len() - from,
{
    if from >= s.len() {
        s.len() as int
    } else if s[from] == c {
        from
    } else {
        next_index_of(s, c, from + 1)
    }
}

/// The first index that holds `c`, or `s.len()` if there is none.
pub open spec fn index_of(s: Seq<char>, c: char) -> int {
    next_index_of(s, c, 0)
}

/// The first index at or after `from` that holds no whitespace, or `s.len()`.
pub open spec fn skip_ws(s: Seq<char>, from: int) -> int
    decreases s.len() - from,
{
    if from >= s.len() {
        s.len() as int
    } else if is_ws(s[from]) {
        skip_ws(s, from + 1)
    } else {
        from
    }
}

/// The first index at or after `from` that holds whitespace, or `s.len()`.
pub open spec fn token_end(s: Seq<char>, from: int) -> int
    decreases s.len() - from,
{
    if from >= s.len() {
        s.len() as int
    } else if is_ws(s[from]) {
        from
    } else {
        token_end(s, from + 1)
    }
}

pub proof fn lemma_next_index_of_bounds(s: Seq<char>, c: char, from: int)
    requires
        0 <= from,
    ensures
        from <= s.len() ==> from <= next_index_of(s, c, from) <= s.len(),
        from > s.len() ==> next_index_of(s, c, from) == s.len(),
        next_index_of(s, c, from) < s.len() ==> s[next_index_of(s, c, from)] == c,
        forall|j: int| from <= j < next_index_of(s, c, from) ==> s[j] != c,
    decreases s.len() - from,
{
    if from < s.len() && s[from] != c {
        lemma_next_index_of_bounds(s, c, from + 1);
    }
}

pub proof fn lemma_skip_ws_bounds(s: Seq<char>, from: int)
    requires
        0 <= from <= s.len(),
    ensures
        from <= skip_ws(s, from) <= s.len(),
        skip_ws(s, from) < s.len() ==> !is_ws(s[skip_ws(s, from)]),
        forall|j: int| from <= j < skip_ws(s, from) ==> is_ws(s[j]),
    decreases s.len() - from,
{
    if from < s.len() && is_ws(s[from]) {
        lemma_skip_ws_bounds(s, from + 1);
    }
}

pub proof fn lemma_token_end_bounds(s: Seq<char>, from: int)
    requires
        0 <= from <= s.len(),
    ensures
        from <= token_end(s, from) <= s.len(),
        token_end(s, from) < s.len() ==> is_ws(s[token_end(s, from)]),
        forall|j: int| from <= j < token_end(s, from) ==> !is_ws(s[j]),
    decreases s.len() - from,
{
    if from < s.len() && !is_ws(s[from]) {
        lemma_token_end_bounds(s, from + 1);
    }
}

/// The whitespace-separated tokens of `s` from index `from` on (`str::split_whitespace`).
pub open spec fn tokens_from(s: Seq<char>, from: int) -> Seq<Seq<char>>
    decreases s.len() - from,
{
    if from < 0 || from >= s.len() {
        seq![]
    } else {
        let a = skip_ws(s, from);
        proof {
            lemma_skip_ws_bounds(s, from);
        }
        if a >= s.len() {
            seq![]
        } else {
            let b = token_end(s, a);
            proof {
                lemma_token_end_bounds(s, a);
            }
            seq![s.subrange(a, b)] + tokens_from(s, b)
        }
    }
}

/// The whitespace-separated tokens of `s`.
pub open spec fn tokens(s: Seq<char>) -> Seq<Seq<char>> {
    tokens_from(s, 0)
}

/// The lines of `s` from index `from` on (`str::lines`): pieces separated by `'\n'`,
/// a `'\r'` that ends a terminated line dropped, no empty piece after a final `'\n'`.
pub open spec fn lines_from(s: Seq<char>, from: int) -> Seq<Seq<char>>
    decreases s.len() - from,
    via lines_from_decreases
{
    if from < 0 || from >= s.len() {
        seq![]
    } else {
        let e = next_index_of(s, '\n', from);
        let piece = s.subrange(from, e);
        let line = if e < s.len() && piece.len() > 0 && piece.last() == '\r' {
            piece.drop_last()
        } else {
            piece
        };
        if e >= s.len() {
            seq![line]
        } else {
            seq![line] + lines_from(s, e + 1)
        }
    }
}

#[via_fn]
proof fn lines_from_decreases(s: Seq<char>, from: int) {
    if 0 <= from < s.len() {
        lemma_next_index_of_bounds(s, '\n', from);
    }
}

/// The lines of `s`.
pub open spec fn lines(s: Seq<char>) -> Seq<Seq<char>> {
    lines_from(s, 0)
}

/// The views of a sequence of strings.
pub open spec fn views(v: Seq<String>) -> Seq<Seq<char>> {
    v.map_values(|x: String| x@)
}

/// The last index at or before `to` whose preceding character is not whitespace,
/// not going below `lo`.
pub open spec fn rskip_ws(s: Seq<char>, lo: int, to: int) -> int
    decreases to - lo,
{
    if to <= lo {
        lo
    } else if is_ws(s[to - 1]) {
        rskip_ws(s, lo, to - 1)
    } else {
        to
    }
}

pub proof fn lemma_trim_start_subrange(s: Seq<char>, i: int)
    requires
        0 <= i <= s.len(),
    ensures
        trim_start(s.subrange(i, s.len() as int)) == s.subrange(skip_ws(s, i), s.len() as int),
    decreases s.len() - i,
{
    if i < s.len() && is_ws(s[i]) {
        assert(s.subrange(i, s.len() as int).drop_first() =~= s.subrange(i + 1, s.len() as int));
        lemma_trim_start_subrange(s, i + 1);
    }
}

pub proof fn lemma_trim_end_subrange(s: Seq<char>, lo: int, to: int)
    requires
        0 <= lo <= to <= s.len(),
    ensures
        lo <= rskip_ws(s, lo, to) <= to,
        trim_end(s.subrange(lo, to)) == s.subrange(lo, rskip_ws(s, lo, to)),
    decreases to - lo,
{
    if to > lo && is_ws(s[to - 1]) {
        assert(s.subrange(lo, to).drop_last() =~= s.subrange(lo, to - 1));
        lemma_trim_end_subrange(s, lo, to - 1);
    }
}

/// `trim_start(s)` is a suffix of `s` that starts with no whitespace.
pub proof fn lemma_trim_start_shape(s: Seq<char>)
    ensures
        trim_start(s).len() <= s.len(),
        trim_start(s) == s.subrange(s.len() - trim_start(s).len(), s.len() as int),
        trim_start(s).len() > 0 ==> !is_ws(trim_start(s)[0]),
    decreases s.len(),
{
    if s.len() > 0 && is_ws(s[0]) {
        lemma_trim_start_shape(s.drop_first());
        let t = trim_start(s.drop_first());
        assert(s.drop_first().subrange(s.len() - 1 - t.len(), s.len() - 1) =~= s.subrange(
            s.len() - t.len(),
            s.len() as int,
        ));
    } else {
        assert(s.subrange(0, s.len() as int) =~= s);
    }
}

/// `trim_end(s)` is a prefix of `s` that ends with no whitespace.
pub proof fn lemma_trim_end_shape(s: Seq<char>)
    ensures
        trim_end(s).len() <= s.len(),
        trim_end(s) == s.take(trim_end(s).len() as int),
        trim_end(s).len() > 0 ==> !is_ws(trim_end(s).last()),
    decreases s.len(),
{
    if s.len() > 0 && is_ws(s.last()) {
        lemma_trim_end_shape(s.drop_last());
        let t = trim_end(s.drop_last());
        assert(s.drop_last().take(t.len() as int) =~= s.take(t.len() as int));
    } else {
        assert(s.take(s.len() as int) =~= s);
    }
}

/// A text that starts and ends with no whitespace is its own trim.
pub proof fn lemma_trim_fixed(s: Seq<char>)
    requires
        s.len() > 0 ==> !is_ws(s[0]) && !is_ws(s.last()),
    ensures
        trim(s) == s,
{
}

/// The trim of a text starts and ends with no whitespace.
pub proof fn lemma_trim_shape(s: Seq<char>)
    ensures
        trim(s).len() > 0 ==> !is_ws(trim(s)[0]) && !is_ws(trim(s).last()),
{
    lemma_trim_start_shape(s);
    let a = trim_start(s);
    lemma_trim_end_shape(a);
    if trim(s).len() > 0 {
        assert(trim(s)[0] == a[0]);
    }
}

proof fn lemma_next_index_tail(s: Seq<char>, t: Seq<char>, c: char, k: int)
    requires
        0 <= k <= t.len(),
    ensures
        next_index_of(s + t, c, s.len() + k) == s.len() + next_index_of(t, c, k),
    decreases t.len() - k,
{
    if k < t.len() {
        assert((s + t)[s.len() + k] == t[k]);
        lemma_next_index_tail(s, t, c, k + 1);
    }
}

/// Where `c` is next found in `s + t`: in `s` if it is there, else in `t`.
pub proof fn lemma_next_index_concat(s: Seq<char>, t: Seq<char>, c: char, from: int)
    requires
        0 <= from <= s.len(),
    ensures
        next_index_of(s + t, c, from) == if next_index_of(s, c, from) < s.len() {
            next_index_of(s, c, from)
        } else {
            s.len() + next_index_of(t, c, 0)
        },
    decreases s.len() - from,
{
    if from < s.len() {
        assert((s + t)[from] == s[from]);
        lemma_next_index_concat(s, t, c, from + 1);
    } else {
        lemma_next_index_tail(s, t, c, 0);
    }
}

/// The lines of `p + q` from inside `q` are those of `q`.
pub proof fn lemma_lines_tail(p: Seq<char>, q: Seq<char>, k: int)
    requires
        0 <= k <= q.len(),
    ensures
        lines_from(p + q, p.len() + k) == lines_from(q, k),
    decreases q.len() - k,
{
    if k < q.len() {
        lemma_next_index_tail(p, q, '\n', k);
        lemma_next_index_of_bounds(q, '\n', k);
        let e = next_index_of(q, '\n', k);
        assert((p + q).subrange(p.len() + k, p.len() + e) =~= q.subrange(k, e));
        if e < q.len() {
            lemma_lines_tail(p, q, e + 1);
        }
    }
}

/// The lines of `a`, a newline, then `b`, read from inside `a`: those of `a` with its
/// last line ended, then those of `b`.
pub proof fn lemma_lines_join(a: Seq<char>, b: Seq<char>, from: int)
    requires
        0 <= from <= a.len(),
    ensures
        lines_from(a + seq!['\n'] + b, from) == lines_from(a + seq!['\n'], from) + lines(b),
    decreases a.len() - from,
{
    let t = a + seq!['\n'];
    let s = t + b;
    assert(t[a.len() as int] == '\n');
    lemma_next_index_of_bounds(t, '\n', from);
    let e = next_index_of(t, '\n', from);
    assert(e <= a.len()) by {
        if e > a.len() {
            assert(t[a.len() as int] != '\n');
        }
    }
    lemma_next_index_concat(t, b, '\n', from);
    assert(s.subrange(from, e) =~= t.subrange(from, e));
    if e < a.len() {
        lemma_lines_join(a, b, e + 1);
    } else {
        lemma_lines_tail(t, b, 0);
        assert(lines_from(t, e + 1) =~= Seq::<Seq<char>>::empty());
    }
    let line = if t.subrange(from, e).len() > 0 && t.subrange(from, e).last() == '\r' {
        t.subrange(from, e).drop_last()
    } else {
        t.subrange(from, e)
    };
    assert(lines_from(s, from) == seq![line] + lines_from(s, e + 1));
    assert(lines_from(t, from) == seq![line] + lines_from(t, e + 1));
    assert(seq![line] + (lines_from(t, e + 1) + lines(b)) =~= seq![line] + lines_from(t, e + 1)
        + lines(b));
}

/// Whitespace added at the end is trimmed away.
pub proof fn lemma_trim_push_ws(q: Seq<char>, w: char)
    requires
        is_ws(w),
    ensures
        trim(q.push(w)) == trim(q),
{
    lemma_trim_start_push_ws(q, w);
    let a = trim_start(q);
    if a.len() > 0 {
        assert(a.push(w).drop_last() =~= a);
    }
}

proof fn lemma_trim_start_push_ws(q: Seq<char>, w: char)
    requires
        is_ws(w),
    ensures
        trim_start(q).len() == 0 ==> trim_start(q.push(w)).len() == 0,
        trim_start(q).len() > 0 ==> trim_start(q.push(w)) == trim_start(q).push(w),
    decreases q.len(),
{
    if q.len() == 0 {
        let p = q.push(w);
        assert(p[0] == w);
        assert(p.drop_first() =~= Seq::<char>::empty());
        assert(trim_start(Seq::<char>::empty()) =~= Seq::<char>::empty());
        assert(trim_start(p) == trim_start(p.drop_first()));
    } else if is_ws(q[0]) {
        assert(q.push(w).drop_first() =~= q.drop_first().push(w));
        lemma_trim_start_push_ws(q.drop_first(), w);
    } else {
        assert(q.push(w)[0] == q[0]);
    }
}

/// The characters that `rskip_ws` steps back over are whitespace, and it stops after
/// one that is not.
pub proof fn lemma_rskip_ws_bounds(s: Seq<char>, lo: int, to: int)
    requires
        0 <= lo <= to <= s.len(),
    ensures
        lo <= rskip_ws(s, lo, to) <= to,
        forall|j: int| rskip_ws(s, lo, to) <= j < to ==> is_ws(#[trigger] s[j]),
        rskip_ws(s, lo, to) > lo ==> !is_ws(s[rskip_ws(s, lo, to) - 1]),
    decreases to - lo,
{
    if to > lo && is_ws(s[to - 1]) {
        lemma_rskip_ws_bounds(s, lo, to - 1);
    }
}

/// The first `c` of `s` is at `m` when `s[m]` is `c` and no earlier character is.
pub proof fn lemma_index_of_at(s: Seq<char>, c: char, m: int)
    requires
        0 <= m < s.len(),
        s[m] == c,
        forall|j: int| 0 <= j < m ==> s[j] != c,
    ensures
        index_of(s, c) == m,
{
    lemma_next_index_of_bounds(s, c, 0);
}

pub proof fn lemma_skip_ws_unique(s: Seq<char>, from: int, m: int)
    requires
        0 <= from <= m <= s.len(),
        forall|j: int| from <= j < m ==> is_ws(#[trigger] s[j]),
        m < s.len() ==> !is_ws(s[m]),
    ensures
        skip_ws(s, from) == m,
{
    lemma_skip_ws_bounds(s, from);
    let a = skip_ws(s, from);
    if a < m {
        assert(is_ws(s[a]));
    } else if a > m {
        assert(is_ws(s[m]));
    }
}

proof fn lemma_token_end_unique(s: Seq<char>, from: int, m: int)
    requires
        0 <= from <= m <= s.len(),
        forall|j: int| from <= j < m ==> !is_ws(#[trigger] s[j]),
        m < s.len() ==> is_ws(s[m]),
    ensures
        token_end(s, from) == m,
{
    lemma_token_end_bounds(s, from);
    let b = token_end(s, from);
    if b < m {
        assert(!is_ws(s[b]));
    } else if b > m {
        assert(!is_ws(s[m]));
    }
}

/// Whitespace added at the end of a text adds no token.
pub proof fn lemma_tokens_trailing_ws(x: Seq<char>, w: Seq<char>, from: int)
    requires
        0 <= from <= x.len(),
        forall|j: int| 0 <= j < w.len() ==> is_ws(#[trigger] w[j]),
    ensures
        tokens_from(x + w, from) == tokens_from(x, from),
    decreases x.len() - from,
{
    let y = x + w;
    assert forall|j: int| x.len() <= j < y.len() implies is_ws(#[trigger] y[j]) by {
        assert(y[j] == w[j - x.len()]);
    }
    if from == x.len() {
        if from < y.len() {
            lemma_skip_ws_unique(y, from, y.len() as int);
        }
    } else {
        lemma_skip_ws_bounds(x, from);
        let a = skip_ws(x, from);
        assert forall|j: int| from <= j < a implies is_ws(#[trigger] y[j]) by {
            assert(y[j] == x[j]);
        }
        if a < x.len() {
            assert(y[a] == x[a]);
            lemma_skip_ws_unique(y, from, a);
            lemma_token_end_bounds(x, a);
            let b = token_end(x, a);
            assert forall|j: int| a <= j < b implies !is_ws(#[trigger] y[j]) by {
                assert(y[j] == x[j]);
            }
            if b < x.len() {
                assert(y[b] == x[b]);
            }
            lemma_token_end_unique(y, a, b);
            assert(y.subrange(a, b) =~= x.subrange(a, b));
            lemma_tokens_trailing_ws(x, w, b);
        } else {
            assert forall|j: int| from <= j < y.len() implies is_ws(#[trigger] y[j]) by {
                if j < x.len() {
                    assert(y[j] == x[j]);
                }
            }
            lemma_skip_ws_unique(y, from, y.len() as int);
        }
    }
}

/// The bounds of `trim(v)` inside `v`.
pub fn trim_bounds(v: &Vec<char>) -> (r: (usize, usize))
    ensures
        r.0 <= r.1 <= v.len(),
        v@.subrange(r.0 as int, r.1 as int) == trim(v@),
{
    let a = skip_whitespace(v, 0);
    let mut b = v.len();
    while b > a && is_whitespace(v[b - 1])
        invariant
            a <= b <= v.len(),
            rskip_ws(v@, a as int, b as int) == rskip_ws(v@, a as int, v.len() as int),
        decreases b,
    {
        b = b - 1;
    }
    proof {
        lemma_trim_start_subrange(v@, 0);
        assert(v@.subrange(0, v.len() as int) =~= v@);
        lemma_trim_end_subrange(v@, a as int, v.len() as int);
    }
    (a, b)
}

/// The characters of `trim(v)`.
pub fn trimmed(v: &Vec<char>) -> (r: Vec<char>)
    ensures
        r@ == trim(v@),
{
    let (a, b) = trim_bounds(v);
    sub_chars(v, a, b)
}

/// The field a list line names: its second token when it has two or more,
/// else its only token.
pub open spec fn pick_field(toks: Seq<Seq<char>>) -> Option<Seq<char>> {
    if toks.len() >= 2 {
        Some(toks[1])
    } else if toks.len() == 1 {
        Some(toks[0])
    } else {
        None
    }
}

/// The bounds in `v` of `pick_field(tokens(v))`.
pub fn field_bounds(v: &Vec<char>) -> (r: Option<(usize, usize)>)
    ensures
        match r {
            None => pick_field(tokens(v@)) is None,
            Some((x, y)) => x <= y <= v.len() && pick_field(tokens(v@)) == Some(
                v@.subrange(x as int, y as int),
            ),
        },
{
    let a = skip_whitespace(v, 0);
    if a >= v.len() {
        assert(tokens(v@) =~= Seq::<Seq<char>>::empty());
        return None;
    }
    let b = find_token_end(v, a);
    proof {
        lemma_skip_ws_bounds(v@, 0);
        lemma_token_end_bounds(v@, a as int);
    }
    let c = if b < v.len() { skip_whitespace(v, b) } else { b };
    assert(tokens(v@) == seq![v@.subrange(a as int, b as int)] + tokens_from(v@, b as int));
    if c >= v.len() {
        assert(tokens_from(v@, b as int) =~= Seq::<Seq<char>>::empty());
        assert(tokens(v@).len() == 1);
        return Some((a, b));
    }
    let d = find_token_end(v, c);
    proof {
        lemma_skip_ws_bounds(v@, b as int);
        lemma_token_end_bounds(v@, c as int);
        assert(tokens_from(v@, b as int) == seq![v@.subrange(c as int, d as int)] + tokens_from(
            v@,
            d as int,
        ));
        assert(tokens(v@)[1] == v@.subrange(c as int, d as int));
    }
    Some((c, d))
}

/// One line of `v`: the bounds of the line that starts at `pos`, and where the
/// next line starts.
pub fn next_line(v: &Vec<char>, pos: usize) -> (r: (usize, usize, usize))
    requires
        pos < v.len(),
    ensures
        pos <= r.1 <= v.len(),
        r.0 == pos,
        pos < r.2 <= v.len(),
        r.2 == v.len() ==> lines_from(v@, pos as int) == seq![v@.subrange(r.0 as int, r.1 as int)]
            + lines_from(v@, r.2 as int),
        r.2 < v.len() ==> lines_from(v@, pos as int) == seq![v@.subrange(r.0 as int, r.1 as int)]
            + lines_from(v@, r.2 as int),
{
    let e = find_from(v, '\n', pos);
    let mut hi = e;
    if e < v.len() && hi > pos && v[hi - 1] == '\r' {
        hi = hi - 1;
        assert(v@.subrange(pos as int, e as int).drop_last() =~= v@.subrange(
            pos as int,
            hi as int,
        ));
    }
    let next = if e < v.len() {
        e + 1
    } else {
        v.len()
    };
    assert(lines_from(v@, v.len() as int) =~= Seq::<Seq<char>>::empty());
    if e >= v.len() {
        assert(seq![v@.subrange(pos as int, hi as int)] + Seq::<Seq<char>>::empty() =~= seq![
            v@.subrange(pos as int, hi as int),
        ]);
    }
    (pos, hi, next)
}

/// Appends `c` to `s` (`String::push`).
#[verifier::external_body]
pub(crate) fn push_char(s: &mut String, c: char)
    ensures
        final(s)@ == old(s)@.push(c),
{
    s.push(c)
}

/// Appends the characters of `t` to `s`.
pub fn push_all(s: &mut String, t: &str)
    ensures
        final(s)@ == old(s)@ + t@,
{
    let v = chars_of(t);
    let mut i: usize = 0;
    while i < v.len()
        invariant
            i <= v.len(),
            v@ == t@,
            s@ == old(s)@ + v@.subrange(0, i as int),
        decreases v.len() - i,
    {
        push_char(s, v[i]);
        i = i + 1;
        assert(s@ =~= old(s)@ + v@.subrange(0, i as int));
    }
    assert(v@.subrange(0, v.len() as int) =~= v@);
}

/// The characters of `s`, in order.
pub fn chars_of(s: &str) -> (v: Vec<char>)
    ensures
        v@ == s@,
{
    let mut v: Vec<char> = Vec::new();
    for c in it: s.chars()
        invariant
            v@ == it.seq().take(it.index() as int),
            it.seq() == s@,
    {
        v.push(c);
        assert(v@ =~= it.seq().take(it.index() as int + 1));
    }
    assert(v@ =~= s@);
    v
}

/// The string made of `v[lo..hi]`.
pub fn string_of(v: &Vec<char>, lo: usize, hi: usize) -> (s: String)
    requires
        lo <= hi <= v.len(),
    ensures
        s@ == v@.subrange(lo as int, hi as int),
{
    let mut s = String::new();
    let mut i = lo;
    while i < hi
        invariant
            lo <= i <= hi <= v.len(),
            s@ == v@.subrange(lo as int, i as int),
        decreases hi - i,
    {
        push_char(&mut s, v[i]);
        i = i + 1;
        assert(s@ =~= v@.subrange(lo as int, i as int));
    }
    s
}

/// The string made of the characters of `v`.
pub fn string_from(v: &Vec<char>) -> (s: String)
    ensures
        s@ == v@,
{
    let s = string_of(v, 0, v.len());
    assert(v@.subrange(0, v.len() as int) =~= v@);
    s
}

/// The characters `v[lo..hi]`.
pub fn sub_chars(v: &Vec<char>, lo: usize, hi: usize) -> (r: Vec<char>)
    requires
        lo <= hi <= v.len(),
    ensures
        r@ == v@.subrange(lo as int, hi as int),
{
    let mut r: Vec<char> = Vec::new();
    let mut i = lo;
    while i < hi
        invariant
            lo <= i <= hi <= v.len(),
            r@ == v@.subrange(lo as int, i as int),
        decreases hi - i,
    {
        r.push(v[i]);
        i = i + 1;
        assert(r@ =~= v@.subrange(lo as int, i as int));
    }
    r
}

/// Whether two strings hold the same characters.
pub fn str_eq(a: &str, b: &str) -> (r: bool)
    ensures
        r == (a@ == b@),
{
    let x = chars_of(a);
    let y = chars_of(b);
    if x.len() != y.len() {
        return false;
    }
    let mut i: usize = 0;
    while i < x.len()
        invariant
            x@ == a@,
            y@ == b@,
            x.len() == y.len(),
            i <= x.len(),
            forall|j: int| 0 <= j < i ==> x@[j] == y@[j],
        decreases x.len() - i,
    {
        if x[i] != y[i] {
            return false;
        }
        i = i + 1;
    }
    assert(x@ =~= y@);
    true
}

/// The first index at or after `from` holding `c`, or `v.len()`.
pub fn find_from(v: &Vec<char>, c: char, from: usize) -> (e: usize)
    requires
        from <= v.len(),
    ensures
        e == next_index_of(v@, c, from as int),
        from <= e <= v.len(),
{
    proof {
        lemma_next_index_of_bounds(v@, c, from as int);
    }
    let mut i = from;
    while i < v.len() && v[i] != c
        invariant
            from <= i <= v.len(),
            next_index_of(v@, c, i as int) == next_index_of(v@, c, from as int),
        decreases v.len() - i,
    {
        i = i + 1;
    }
    i
}

/// The first index at or after `from` holding no whitespace, or `v.len()`.
pub fn skip_whitespace(v: &Vec<char>, from: usize) -> (e: usize)
    requires
        from <= v.len(),
    ensures
        e == skip_ws(v@, from as int),
        from <= e <= v.len(),
{
    let mut i = from;
    while i < v.len() && is_whitespace(v[i])
        invariant
            from <= i <= v.len(),
            skip_ws(v@, i as int) == skip_ws(v@, from as int),
        decreases v.len() - i,
    {
        i = i + 1;
    }
    i
}

/// The first index at or after `from` holding whitespace, or `v.len()`.
pub fn find_token_end(v: &Vec<char>, from: usize) -> (e: usize)
    requires
        from <= v.len(),
    ensures
        e == token_end(v@, from as int),
        from <= e <= v.len(),
{
    let mut i = from;
    while i < v.len() && !is_whitespace(v[i])
        invariant
            from <= i <= v.len(),
            token_end(v@, i as int) == token_end(v@, from as int),
        decreases v.len() - i,
    {
        i = i + 1;
    }
    i
}

} // verus!
